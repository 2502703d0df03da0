use vstd::prelude::*;

verus! {

/// How one character of a token is written inside a pointer: `~` as `~0`,
/// `/` as `~1`, any other character as itself.
pub open spec fn escape_char(c: char) -> Seq<char> {
    if c == '~' {
        seq!['~', '0']
    } else if c == '/' {
        seq!['~', '1']
    } else {
        seq![c]
    }
}

/// The escaped form of a token's text.
pub open spec fn escape(text: Seq<char>) -> Seq<char>
    decreases text.len(),
{
    if text.len() == 0 {
        Seq::empty()
    } else {
        escape_char(text[0]) + escape(text.skip(1))
    }
}

/// The text that an escaped token stands for: `~1` reads as `/`, `~0` as
/// `~`, and every other character, a stray `~` too, as itself.
pub open spec fn unescape(text: Seq<char>) -> Seq<char>
    decreases text.len(),
{
    if text.len() == 0 {
        Seq::empty()
    } else if text.len() >= 2 && text[0] == '~' && text[1] == '1' {
        seq!['/'] + unescape(text.skip(2))
    } else if text.len() >= 2 && text[0] == '~' && text[1] == '0' {
        seq!['~'] + unescape(text.skip(2))
    } else {
        seq![text[0]] + unescape(text.skip(1))
    }
}

/// Every `~` in `text` starts one of the two escapes.
pub open spec fn well_escaped(text: Seq<char>) -> bool
    decreases text.len(),
{
    if text.len() == 0 {
        true
    } else if text[0] == '~' {
        text.len() >= 2 && (text[1] == '0' || text[1] == '1') && well_escaped(text.skip(2))
    } else {
        well_escaped(text.skip(1))
    }
}

/// Escapes a token's text.
pub fn escape_text(text: &Vec<char>) -> (out: Vec<char>)
    ensures
        out@ == escape(text@),
{
    let mut out: Vec<char> = Vec::new();
    let mut i: usize = 0;
    assert(text@.skip(0) == text@);
    while i < text.len()
        invariant
            i <= text.len(),
            out@ + escape(text@.skip(i as int)) == escape(text@),
        decreases text.len() - i,
    {
        let c = text[i];
        proof {
            let rest = text@.skip(i as int);
            assert(rest.skip(1) == text@.skip(i + 1));
            assert(rest[0] == c);
            assert(out@ + (escape_char(c) + escape(rest.skip(1))) == (out@ + escape_char(c))
                + escape(rest.skip(1)));
        }
        let ghost before = out@;
        if c == '~' {
            out.push('~');
            out.push('0');
        } else if c == '/' {
            out.push('~');
            out.push('1');
        } else {
            out.push(c);
        }
        assert(out@ == before + escape_char(c));
        i = i + 1;
    }
    assert(text@.skip(i as int).len() == 0);
    assert(out@ + Seq::<char>::empty() == out@);
    out
}

/// Reads an escaped token back into its text.
pub fn unescape_text(text: &Vec<char>) -> (out: Vec<char>)
    ensures
        out@ == unescape(text@),
{
    let mut out: Vec<char> = Vec::new();
    let mut i: usize = 0;
    assert(text@.skip(0) == text@);
    while i < text.len()
        invariant
            i <= text.len(),
            out@ + unescape(text@.skip(i as int)) == unescape(text@),
        decreases text.len() - i,
    {
        let c = text[i];
        let ghost rest = text@.skip(i as int);
        let ghost before = out@;
        assert(rest[0] == c);
        if c == '~' && i + 1 < text.len() && (text[i + 1] == '1' || text[i + 1] == '0') {
            let d = text[i + 1];
            assert(rest[1] == d);
            assert(rest.skip(2) == text@.skip(i + 2));
            let plain = if d == '1' { '/' } else { '~' };
            out.push(plain);
            assert(before + (seq![plain] + unescape(rest.skip(2))) == (before + seq![plain])
                + unescape(rest.skip(2)));
            assert(out@ == before + seq![plain]);
            i = i + 2;
        } else {
            assert(rest.skip(1) == text@.skip(i + 1));
            out.push(c);
            assert(before + (seq![c] + unescape(rest.skip(1))) == (before + seq![c]) + unescape(
                rest.skip(1),
            ));
            assert(out@ == before + seq![c]);
            i = i + 1;
        }
    }
    assert(text@.skip(i as int).len() == 0);
    assert(out@ + Seq::<char>::empty() == out@);
    out
}

/// Escaping loses nothing: reading an escaped text gives the text back.
pub proof fn unescape_escape(text: Seq<char>)
    ensures
        unescape(escape(text)) == text,
        well_escaped(escape(text)),
    decreases text.len(),
{
    if text.len() > 0 {
        let c = text[0];
        let rest = text.skip(1);
        unescape_escape(rest);
        let whole = escape_char(c) + escape(rest);
        if c == '~' || c == '/' {
            assert(whole.skip(2) == escape(rest));
        } else {
            assert(whole.skip(1) == escape(rest));
        }
        assert(seq![c] + rest == text);
    }
}

/// A text whose every `~` starts an escape, and which holds no `/`, is the
/// escaped form of what it reads as.
pub proof fn escape_unescape(text: Seq<char>)
    requires
        well_escaped(text),
        !text.contains('/'),
    ensures
        escape(unescape(text)) == text,
    decreases text.len(),
{
    if text.len() > 0 {
        if text[0] == '~' {
            let rest = text.skip(2);
            assert forall|c: char| rest.contains(c) implies text.contains(c) by {
                let i = choose|i: int| 0 <= i < rest.len() && rest[i] == c;
                assert(text[i + 2] == c);
            }
            escape_unescape(rest);
            let plain = if text[1] == '1' { '/' } else { '~' };
            let read = seq![plain] + unescape(rest);
            assert(read.skip(1) == unescape(rest));
            assert(escape_char(plain) + rest == text);
        } else {
            let rest = text.skip(1);
            assert forall|c: char| rest.contains(c) implies text.contains(c) by {
                let i = choose|i: int| 0 <= i < rest.len() && rest[i] == c;
                assert(text[i + 1] == c);
            }
            assert(text.contains(text[0]));
            escape_unescape(rest);
            let read = seq![text[0]] + unescape(rest);
            assert(read.skip(1) == unescape(rest));
            assert(escape_char(text[0]) + rest == text);
        }
    }
}

/// An escaped text holds no `/`.
pub proof fn escape_hides_slash(text: Seq<char>)
    ensures
        !escape(text).contains('/'),
    decreases text.len(),
{
    if text.len() > 0 {
        escape_hides_slash(text.skip(1));
        let head = escape_char(text[0]);
        let tail = escape(text.skip(1));
        if (head + tail).contains('/') {
            let k = choose|k: int| 0 <= k < (head + tail).len() && (head + tail)[k] == '/';
            if k >= head.len() {
                assert(tail[k - head.len()] == '/');
                assert(tail.contains('/'));
            }
        }
    }
}

} // verus!
