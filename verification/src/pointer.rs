use crate::decimal::{
    decimal_text, decimal_text_reads_back, decimal_value_writes_back, index_of_text, index_text,
    is_canonical_decimal, parse_index,
};
use crate::escape::{
    escape, escape_hides_slash, escape_text, escape_unescape, unescape, unescape_escape,
    unescape_text, well_escaped,
};
use crate::text::{chars_of, join, string_of, texts};
use vstd::prelude::*;

verus! {

/// One step of a document pointer.
#[derive(Debug, PartialEq, Eq, PartialOrd, Ord, Hash)]
pub enum Token {
    /// A position in an array.
    Index(u64),
    /// The name of a property of an object.
    Property(String),
    /// The position one past the end of an array.
    NextIndex,
}

/// What a token is, with its name as a sequence of characters.
pub enum TokenView {
    Index(u64),
    Property(Seq<char>),
    NextIndex,
}

impl View for Token {
    type V = TokenView;

    open spec fn view(&self) -> TokenView {
        match self {
            Token::Index(index) => TokenView::Index(*index),
            Token::Property(name) => TokenView::Property(name@),
            Token::NextIndex => TokenView::NextIndex,
        }
    }
}

/// A location inside a document: the steps that lead to it from the root.
/// The empty pointer is the root.
#[derive(Debug, PartialEq, Eq, PartialOrd, Ord, Hash)]
pub struct Pointer(pub Vec<Token>);

impl View for Pointer {
    type V = Seq<TokenView>;

    open spec fn view(&self) -> Seq<TokenView> {
        Seq::new(self.0@.len(), |i: int| self.0@[i]@)
    }
}

/// The pieces of `text` between occurrences of `sep`: one more than `sep`
/// occurs in it.
pub open spec fn split(text: Seq<char>, sep: char) -> Seq<Seq<char>>
    decreases text.len(),
{
    if text.len() == 0 {
        seq![Seq::<char>::empty()]
    } else {
        let init = split(text.drop_last(), sep);
        if text.last() == sep {
            init.push(Seq::<char>::empty())
        } else {
            init.drop_last().push(init.last().push(text.last()))
        }
    }
}

/// The token that a piece of text denotes, escapes already read: `-` is the
/// next index, a canonical decimal numeral that fits in 64 bits is an index,
/// anything else is a property name.
pub open spec fn token_of(text: Seq<char>) -> TokenView {
    if text == seq!['-'] {
        TokenView::NextIndex
    } else {
        match index_of_text(text) {
            Some(index) => TokenView::Index(index),
            None => TokenView::Property(text),
        }
    }
}

/// How a token is written, before escaping.
pub open spec fn token_text(token: TokenView) -> Seq<char> {
    match token {
        TokenView::Index(index) => decimal_text(index as nat),
        TokenView::Property(name) => name,
        TokenView::NextIndex => seq!['-'],
    }
}

/// The escaped pieces that a pointer's text consists of. The empty text has
/// none; one leading `/` starts the first piece and is not a piece itself.
pub open spec fn pointer_pieces(text: Seq<char>) -> Seq<Seq<char>> {
    if text.len() == 0 {
        Seq::empty()
    } else if text[0] == '/' {
        split(text, '/').drop_first()
    } else {
        split(text, '/')
    }
}

/// The tokens that a pointer's text denotes.
pub open spec fn pointer_tokens(text: Seq<char>) -> Seq<TokenView> {
    let pieces = pointer_pieces(text);
    Seq::new(pieces.len(), |i: int| token_of(unescape(pieces[i])))
}

/// The canonical text of a pointer: each token escaped, with a `/` before it.
pub open spec fn pointer_text(tokens: Seq<TokenView>) -> Seq<char>
    decreases tokens.len(),
{
    if tokens.len() == 0 {
        Seq::empty()
    } else {
        pointer_text(tokens.drop_last()) + seq!['/'] + escape(token_text(tokens.last()))
    }
}

/// Cutting a text gives at least one piece.
pub proof fn split_is_not_empty(text: Seq<char>, sep: char)
    ensures
        split(text, sep).len() >= 1,
    decreases text.len(),
{
    if text.len() > 0 {
        split_is_not_empty(text.drop_last(), sep);
    }
}

/// Cuts `text` at each occurrence of `sep`.
pub fn split_text(text: &Vec<char>, sep: char) -> (pieces: Vec<Vec<char>>)
    ensures
        texts(pieces@) == split(text@, sep),
{
    let mut pieces: Vec<Vec<char>> = Vec::new();
    let mut piece: Vec<char> = Vec::new();
    let mut i: usize = 0;
    assert(text@.take(0).len() == 0);
    assert(texts(pieces@).push(piece@) == split(text@.take(0), sep));
    while i < text.len()
        invariant
            i <= text.len(),
            texts(pieces@).push(piece@) == split(text@.take(i as int), sep),
        decreases text.len() - i,
    {
        let c = text[i];
        let ghost done = texts(pieces@);
        let ghost open = piece@;
        proof {
            let next = text@.take(i + 1);
            assert(next.drop_last() == text@.take(i as int));
            assert(next.last() == c);
            assert(done.push(open).drop_last() == done);
            assert(done.push(open).last() == open);
        }
        if c == sep {
            pieces.push(piece);
            piece = Vec::new();
            assert(texts(pieces@) == done.push(open));
        } else {
            piece.push(c);
        }
        i = i + 1;
    }
    assert(text@.take(i as int) == text@);
    let ghost done = texts(pieces@);
    pieces.push(piece);
    assert(texts(pieces@) == done.push(piece@));
    pieces
}

impl Clone for Token {
    fn clone(&self) -> (copy: Token)
        ensures
            copy@ == self@,
    {
        match self {
            Token::Index(index) => Token::Index(*index),
            Token::Property(name) => Token::Property(name.clone()),
            Token::NextIndex => Token::NextIndex,
        }
    }
}

impl Clone for Pointer {
    fn clone(&self) -> (copy: Pointer)
        ensures
            copy@ == self@,
    {
        let mut tokens: Vec<Token> = Vec::new();
        let mut i: usize = 0;
        while i < self.0.len()
            invariant
                i <= self.0.len(),
                tokens@.len() == i,
                forall|k: int| 0 <= k < i ==> (#[trigger] tokens@[k])@ == self.0@[k]@,
            decreases self.0.len() - i,
        {
            tokens.push(self.0[i].clone());
            i = i + 1;
        }
        let copy = Pointer(tokens);
        assert(copy@ == self@);
        copy
    }
}

impl Token {
    /// Reads one piece of a pointer's text, escapes already read.
    pub fn from_text(text: &Vec<char>) -> (token: Token)
        ensures
            token@ == token_of(text@),
    {
        if text.len() == 1 && text[0] == '-' {
            assert(text@ == seq!['-']);
            Token::NextIndex
        } else {
            match parse_index(text) {
                Some(index) => Token::Index(index),
                None => Token::Property(string_of(text)),
            }
        }
    }

    /// How the token is written, before escaping.
    pub fn text(&self) -> (text: Vec<char>)
        ensures
            text@ == token_text(self@),
    {
        match self {
            Token::Index(index) => index_text(*index),
            Token::Property(name) => chars_of(name.as_str()),
            Token::NextIndex => {
                let mut text: Vec<char> = Vec::new();
                text.push('-');
                assert(text@ == seq!['-']);
                text
            },
        }
    }
}

impl Pointer {
    /// The pointer to the root of a document.
    pub fn empty() -> (pointer: Pointer)
        ensures
            pointer@.len() == 0,
    {
        Pointer(Vec::new())
    }

    /// Reads a pointer from its text. Every text is read as some pointer:
    /// the leading `/` may be missing, and a `~` that starts no escape
    /// stands for itself.
    pub fn from_str(text: &str) -> (pointer: Pointer)
        ensures
            pointer@ == pointer_tokens(text@),
    {
        let chars = chars_of(text);
        let mut tokens: Vec<Token> = Vec::new();
        if chars.len() == 0 {
            let pointer = Pointer(tokens);
            assert(pointer@ == pointer_tokens(text@));
            return pointer;
        }
        let all = split_text(&chars, '/');
        proof {
            split_is_not_empty(chars@, '/');
        }
        let first: usize = if chars[0] == '/' { 1 } else { 0 };
        let ghost pieces = pointer_pieces(text@);
        assert(pieces.len() == all.len() - first);
        assert forall|k: int| 0 <= k < pieces.len() implies pieces[k] == all@[k + first]@ by {
            assert(texts(all@)[k + first] == all@[k + first]@);
        }
        let mut i: usize = first;
        while i < all.len()
            invariant
                first <= i <= all.len(),
                pieces.len() == all.len() - first,
                forall|k: int| 0 <= k < pieces.len() ==> pieces[k] == all@[k + first]@,
                tokens@.len() == i - first,
                forall|k: int|
                    0 <= k < tokens@.len() ==> (#[trigger] tokens@[k])@ == token_of(
                        unescape(pieces[k]),
                    ),
            decreases all.len() - i,
        {
            let plain = unescape_text(&all[i]);
            let token = Token::from_text(&plain);
            tokens.push(token);
            i = i + 1;
        }
        let pointer = Pointer(tokens);
        assert(pointer@ == pointer_tokens(text@));
        pointer
    }

    /// The number of tokens.
    pub fn len(&self) -> (n: usize)
        ensures
            n == self@.len(),
    {
        self.0.len()
    }

    /// Whether this is the pointer to the root.
    pub fn is_empty(&self) -> (empty: bool)
        ensures
            empty == (self@.len() == 0),
    {
        self.0.len() == 0
    }

    /// The canonical text of the pointer.
    pub fn to_text(&self) -> (text: String)
        ensures
            text@ == pointer_text(self@),
    {
        string_of(&self.text_chars())
    }

    /// The characters of the canonical text of the pointer.
    pub fn text_chars(&self) -> (out: Vec<char>)
        ensures
            out@ == pointer_text(self@),
    {
        let mut out: Vec<char> = Vec::new();
        let mut i: usize = 0;
        assert(self@.take(0).len() == 0);
        while i < self.0.len()
            invariant
                i <= self.0.len(),
                out@ == pointer_text(self@.take(i as int)),
            decreases self.0.len() - i,
        {
            let plain = self.0[i].text();
            let mut escaped = escape_text(&plain);
            proof {
                let next = self@.take(i + 1);
                assert(next.drop_last() == self@.take(i as int));
                assert(next.last() == self.0@[i as int]@);
            }
            out.push('/');
            out.append(&mut escaped);
            i = i + 1;
        }
        assert(self@.take(i as int) == self@);
        out
    }
}

/// A token is written as the text that it was read from.
pub proof fn token_text_reads_back(text: Seq<char>)
    ensures
        token_text(token_of(text)) == text,
{
    if text != seq!['-'] && is_canonical_decimal(text) {
        decimal_value_writes_back(text);
    }
}

/// A token that was written is read back as itself, unless it is a
/// property whose name reads as the next index or as an index.
pub proof fn token_reads_back(token: TokenView)
    requires
        token matches TokenView::Property(name) ==> token_of(name) == token,
    ensures
        token_of(token_text(token)) == token,
{
    match token {
        TokenView::Index(index) => {
            decimal_text_reads_back(index as nat);
            let text = decimal_text(index as nat);
            assert(is_canonical_decimal(text));
            if text == seq!['-'] {
                assert(text[0] == '-');
                assert(false);
            }
        },
        TokenView::Property(name) => {},
        TokenView::NextIndex => {
            assert(seq!['-'][0] == '-');
        },
    }
}

/// Cutting a text at a separator loses nothing: the pieces, joined by the
/// separator, are the text, and no piece holds the separator.
pub proof fn split_joins_back(text: Seq<char>, sep: char)
    ensures
        join(split(text, sep), seq![sep]) == text,
        forall|i: int|
            0 <= i < split(text, sep).len() ==> !(#[trigger] split(text, sep)[i]).contains(sep),
    decreases text.len(),
{
    let pieces = split(text, sep);
    if text.len() == 0 {
        assert forall|i: int| 0 <= i < pieces.len() implies !(#[trigger] pieces[i]).contains(
            sep,
        ) by {
            assert(pieces[i].len() == 0);
        }
    } else {
        let init = split(text.drop_last(), sep);
        split_joins_back(text.drop_last(), sep);
        split_is_not_empty(text.drop_last(), sep);
        let c = text.last();
        assert(text == text.drop_last().push(c));
        if c == sep {
            assert(pieces.drop_last() == init);
            assert(join(pieces, seq![sep]) == join(init, seq![sep]) + seq![sep] + Seq::<
                char,
            >::empty());
            assert(join(pieces, seq![sep]) == text);
            assert forall|i: int| 0 <= i < pieces.len() implies !(#[trigger] pieces[i]).contains(
                sep,
            ) by {
                if i < init.len() {
                    assert(pieces[i] == init[i]);
                } else {
                    assert(pieces[i].len() == 0);
                }
            }
        } else {
            let grown = init.last().push(c);
            assert(pieces.last() == grown);
            if init.len() == 1 {
                assert(pieces == seq![grown]);
                assert(join(init, seq![sep]) == init[0]);
            } else {
                assert(pieces.drop_last() == init.drop_last());
                assert(join(init, seq![sep]) == join(init.drop_last(), seq![sep]) + seq![sep]
                    + init.last());
                assert(join(pieces, seq![sep]) == join(init.drop_last(), seq![sep]) + seq![sep]
                    + grown);
                assert(join(init.drop_last(), seq![sep]) + seq![sep] + grown == (join(
                    init.drop_last(),
                    seq![sep],
                ) + seq![sep] + init.last()).push(c));
            }
            assert forall|i: int| 0 <= i < pieces.len() implies !(#[trigger] pieces[i]).contains(
                sep,
            ) by {
                if i < init.len() - 1 {
                    assert(pieces[i] == init[i]);
                } else {
                    assert(!init[init.len() - 1].contains(sep));
                    if grown.contains(sep) {
                        let k = choose|k: int| 0 <= k < grown.len() && grown[k] == sep;
                        assert(init.last()[k] == sep);
                        assert(init.last().contains(sep));
                    }
                }
            }
        }
    }
}

/// The pieces written one after the other, each with a `/` before it.
pub open spec fn slashed(pieces: Seq<Seq<char>>) -> Seq<char>
    decreases pieces.len(),
{
    if pieces.len() == 0 {
        Seq::empty()
    } else {
        slashed(pieces.drop_last()) + seq!['/'] + pieces.last()
    }
}

proof fn pointer_text_is_slashed(tokens: Seq<TokenView>)
    ensures
        pointer_text(tokens) == slashed(
            Seq::new(tokens.len(), |i: int| escape(token_text(tokens[i]))),
        ),
    decreases tokens.len(),
{
    let pieces = Seq::new(tokens.len(), |i: int| escape(token_text(tokens[i])));
    if tokens.len() > 0 {
        pointer_text_is_slashed(tokens.drop_last());
        assert(pieces.drop_last() == Seq::new(
            tokens.drop_last().len(),
            |i: int| escape(token_text(tokens.drop_last()[i])),
        ));
    }
}

proof fn pieces_after_slash(text: Seq<char>)
    requires
        text.len() > 0,
        text[0] == '/',
    ensures
        split(text, '/').len() >= 2,
        slashed(split(text, '/').drop_first()) == text,
    decreases text.len(),
{
    let pieces = split(text, '/');
    let rest = text.drop_last();
    let init = split(rest, '/');
    let c = text.last();
    assert(text == rest.push(c));
    if text.len() == 1 {
        assert(rest.len() == 0);
        assert(init == seq![Seq::<char>::empty()]);
        assert(pieces == seq![Seq::<char>::empty(), Seq::<char>::empty()]);
        let tail = pieces.drop_first();
        assert(tail == seq![Seq::<char>::empty()]);
        assert(tail.drop_last().len() == 0);
        assert(slashed(tail) == slashed(tail.drop_last()) + seq!['/'] + tail.last());
        assert(slashed(tail) == seq!['/']);
    } else {
        assert(rest[0] == '/');
        pieces_after_slash(rest);
        let tail = pieces.drop_first();
        if c == '/' {
            assert(tail.drop_last() == init.drop_first());
            assert(tail.last().len() == 0);
            assert(slashed(tail) == slashed(init.drop_first()) + seq!['/'] + tail.last());
        } else {
            let before = init.drop_first();
            assert(tail.drop_last() == before.drop_last());
            assert(tail.last() == before.last().push(c));
            assert(slashed(before) == slashed(before.drop_last()) + seq!['/'] + before.last());
            assert(slashed(tail) == slashed(before.drop_last()) + seq!['/'] + before.last().push(
                c,
            ));
            assert(slashed(before.drop_last()) + seq!['/'] + before.last().push(c) == (slashed(
                before.drop_last(),
            ) + seq!['/'] + before.last()).push(c));
        }
    }
}

/// A pointer's text is canonical where it is empty or starts with `/`, and
/// every `~` in it starts an escape.
pub open spec fn is_canonical(text: Seq<char>) -> bool {
    &&& text.len() > 0 ==> text[0] == '/'
    &&& forall|i: int|
        0 <= i < pointer_pieces(text).len() ==> well_escaped(#[trigger] pointer_pieces(text)[i])
}

/// The canonical text of the pointer read from a canonical text is that
/// text.
pub proof fn canonical_text_reads_back(text: Seq<char>)
    requires
        is_canonical(text),
    ensures
        pointer_text(pointer_tokens(text)) == text,
{
    let tokens = pointer_tokens(text);
    let pieces = pointer_pieces(text);
    pointer_text_is_slashed(tokens);
    let written = Seq::new(tokens.len(), |i: int| escape(token_text(tokens[i])));
    if text.len() > 0 {
        pieces_after_slash(text);
        split_joins_back(text, '/');
        assert forall|i: int| 0 <= i < pieces.len() implies written[i] == pieces[i] by {
            assert(pieces[i] == split(text, '/')[i + 1]);
            token_text_reads_back(unescape(pieces[i]));
            escape_unescape(pieces[i]);
        }
        assert(written == pieces);
    } else {
        assert(written == pieces);
    }
}

proof fn split_after_piece(text: Seq<char>, piece: Seq<char>, sep: char)
    requires
        !piece.contains(sep),
    ensures
        split(text + piece, sep) == split(text, sep).drop_last().push(
            split(text, sep).last() + piece,
        ),
    decreases piece.len(),
{
    split_is_not_empty(text, sep);
    let pieces = split(text, sep);
    if piece.len() == 0 {
        assert(text + piece == text);
        assert(pieces.last() + piece == pieces.last());
        assert(pieces.drop_last().push(pieces.last()) == pieces);
    } else {
        let c = piece.last();
        let init = piece.drop_last();
        assert(piece.contains(c));
        if init.contains(sep) {
            let k = choose|k: int| 0 <= k < init.len() && init[k] == sep;
            assert(piece[k] == sep);
        }
        split_after_piece(text, init, sep);
        assert((text + piece).drop_last() == text + init);
        assert((text + piece).last() == c);
        let before = pieces.drop_last().push(pieces.last() + init);
        assert(before.drop_last() == pieces.drop_last());
        assert(before.last().push(c) == pieces.last() + piece);
    }
}

proof fn split_of_slashed(pieces: Seq<Seq<char>>)
    requires
        forall|i: int| 0 <= i < pieces.len() ==> !(#[trigger] pieces[i]).contains('/'),
    ensures
        split(slashed(pieces), '/') == seq![Seq::<char>::empty()] + pieces,
    decreases pieces.len(),
{
    if pieces.len() == 0 {
        assert(seq![Seq::<char>::empty()] + pieces == seq![Seq::<char>::empty()]);
    } else {
        let before = pieces.drop_last();
        let last = pieces.last();
        assert forall|i: int| 0 <= i < before.len() implies !(#[trigger] before[i]).contains(
            '/',
        ) by {
            assert(before[i] == pieces[i]);
        }
        split_of_slashed(before);
        let head = slashed(before) + seq!['/'];
        assert(head.drop_last() == slashed(before));
        assert(head.last() == '/');
        let cut = split(head, '/');
        assert(cut == (seq![Seq::<char>::empty()] + before).push(Seq::<char>::empty()));
        assert(!last.contains('/'));
        split_after_piece(head, last, '/');
        assert(cut.drop_last() == seq![Seq::<char>::empty()] + before);
        assert(cut.last() + last == last);
        assert((seq![Seq::<char>::empty()] + before).push(last) == seq![Seq::<char>::empty()]
            + pieces);
    }
}

/// A token that is read back as itself once written: any index, the next
/// index, and a property unless its name reads as one of those.
pub open spec fn reads_as_itself(token: TokenView) -> bool {
    token matches TokenView::Property(name) ==> token_of(name) == token
}

/// Writing a pointer loses nothing: its canonical text is read back as the
/// same tokens.
pub proof fn pointer_reads_back(tokens: Seq<TokenView>)
    requires
        forall|i: int| 0 <= i < tokens.len() ==> reads_as_itself(#[trigger] tokens[i]),
    ensures
        pointer_tokens(pointer_text(tokens)) == tokens,
        is_canonical(pointer_text(tokens)),
{
    let text = pointer_text(tokens);
    let written = Seq::new(tokens.len(), |i: int| escape(token_text(tokens[i])));
    pointer_text_is_slashed(tokens);
    assert forall|i: int| 0 <= i < written.len() implies !(#[trigger] written[i]).contains(
        '/',
    ) by {
        escape_hides_slash(token_text(tokens[i]));
    }
    split_of_slashed(written);
    if tokens.len() == 0 {
        assert(pointer_tokens(text) == tokens);
    } else {
        assert(text == slashed(written.drop_last()) + seq!['/'] + written.last());
        assert(text.len() > 0);
        assert(text[0] == '/') by {
            if written.len() > 1 {
                let before = written.drop_last();
                slashed_starts_with_slash(before);
            } else {
                assert(written.drop_last().len() == 0);
                assert(slashed(written.drop_last()).len() == 0);
            }
        }
        let cut = split(text, '/');
        assert(cut.drop_first() == written);
        assert(pointer_pieces(text) == written);
        assert forall|i: int| 0 <= i < tokens.len() implies pointer_tokens(text)[i]
            == tokens[i] by {
            unescape_escape(token_text(tokens[i]));
            token_reads_back(tokens[i]);
        }
        assert(pointer_tokens(text) == tokens);
        assert forall|i: int| 0 <= i < pointer_pieces(text).len() implies well_escaped(
            #[trigger] pointer_pieces(text)[i],
        ) by {
            unescape_escape(token_text(tokens[i]));
        }
    }
}

proof fn slashed_starts_with_slash(pieces: Seq<Seq<char>>)
    requires
        pieces.len() > 0,
    ensures
        slashed(pieces).len() > 0,
        slashed(pieces)[0] == '/',
    decreases pieces.len(),
{
    if pieces.len() > 1 {
        slashed_starts_with_slash(pieces.drop_last());
    } else {
        assert(pieces.drop_last().len() == 0);
        assert(slashed(pieces.drop_last()).len() == 0);
    }
}

} // verus!
