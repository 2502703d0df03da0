use crate::collation::{collate, collation};
use crate::pointer::{
    canonical_text_reads_back, is_canonical, pointer_text, pointer_tokens, token_text, Pointer,
    TokenView,
};
use crate::text::{
    chars_of, join, precedes, precedes_is_irreflexive, precedes_is_total, precedes_is_transitive, string_of, text_precedes, texts,
    views,
};
use vstd::prelude::*;

verus! {

/// The text with every `from` turned into `to`.
pub open spec fn replace_char(text: Seq<char>, from: char, to: char) -> Seq<char> {
    Seq::new(
        text.len(),
        |i: int|
            if text[i] == from {
                to
            } else {
                text[i]
            },
    )
}

/// How each token of a location is written.
pub open spec fn token_texts(tokens: Seq<TokenView>) -> Seq<Seq<char>> {
    Seq::new(tokens.len(), |i: int| token_text(tokens[i]))
}

/// The ways in which a header may spell a location, before collation. The
/// root has none. Any other location has its tokens joined by `_`, by a
/// space and by nothing, its canonical pointer text, and that text without
/// the leading `/`. A location of one token has that token with each `_`
/// turned into a space as well; a longer one has not.
pub open spec fn field_name_variants(tokens: Seq<TokenView>) -> Seq<Seq<char>> {
    if tokens.len() == 0 {
        Seq::empty()
    } else {
        let parts = token_texts(tokens);
        let common = seq![
            join(parts, seq!['_']),
            join(parts, seq![' ']),
            join(parts, Seq::empty()),
            pointer_text(tokens),
            pointer_text(tokens).skip(1),
        ];
        if tokens.len() == 1 {
            common.push(replace_char(parts[0], '_', ' '))
        } else {
            common
        }
    }
}

/// Each text collated.
pub open spec fn collated(items: Seq<Seq<char>>) -> Seq<Seq<char>> {
    Seq::new(items.len(), |i: int| collation(items[i]))
}

/// Each text comes before every later one: the run ascends and holds
/// nothing twice.
pub open spec fn strictly_sorted(names: Seq<Seq<char>>) -> bool {
    forall|i: int, j: int| 0 <= i < j < names.len() ==> precedes(names[i], names[j])
}

/// `names` holds what `items` holds, each text once, in ascending order.
pub open spec fn sorted_set_of(names: Seq<Seq<char>>, items: Seq<Seq<char>>) -> bool {
    &&& strictly_sorted(names)
    &&& forall|name: Seq<char>| names.contains(name) <==> items.contains(name)
}

/// `names` are the field names derived from the location `tokens`: its
/// variants, collated, each once, in ascending order.
pub open spec fn derived_names(names: Seq<Seq<char>>, tokens: Seq<TokenView>) -> bool {
    sorted_set_of(names, collated(field_name_variants(tokens)))
}

/// Joins the parts with `sep` between neighbours.
pub fn join_texts(parts: &Vec<Vec<char>>, sep: &Vec<char>) -> (out: Vec<char>)
    ensures
        out@ == join(texts(parts@), sep@),
{
    let mut out: Vec<char> = Vec::new();
    let mut i: usize = 0;
    let ghost all = texts(parts@);
    assert(all.take(0).len() == 0);
    while i < parts.len()
        invariant
            i <= parts.len(),
            all == texts(parts@),
            out@ == join(all.take(i as int), sep@),
        decreases parts.len() - i,
    {
        proof {
            let next = all.take(i + 1);
            assert(next.drop_last() == all.take(i as int));
            assert(next.last() == parts@[i as int]@);
        }
        let ghost before = out@;
        if i > 0 {
            let mut between = sep.clone();
            out.append(&mut between);
        }
        let mut part = parts[i].clone();
        out.append(&mut part);
        proof {
            if i == 0 {
                assert(before.len() == 0);
                assert(out@ == parts@[i as int]@);
            }
        }
        i = i + 1;
    }
    assert(all.take(i as int) == all);
    out
}

/// Turns every `from` in `text` into `to`.
pub fn replace_in_text(text: &Vec<char>, from: char, to: char) -> (out: Vec<char>)
    ensures
        out@ == replace_char(text@, from, to),
{
    let mut out: Vec<char> = Vec::new();
    let mut i: usize = 0;
    while i < text.len()
        invariant
            i <= text.len(),
            out@.len() == i,
            forall|k: int| 0 <= k < i ==> out@[k] == replace_char(text@, from, to)[k],
        decreases text.len() - i,
    {
        let c = text[i];
        out.push(if c == from { to } else { c });
        i = i + 1;
    }
    assert(out@ =~= replace_char(text@, from, to));
    out
}

proof fn pointer_text_starts_with_slash(tokens: Seq<TokenView>)
    requires
        tokens.len() > 0,
    ensures
        pointer_text(tokens).len() > 0,
        pointer_text(tokens)[0] == '/',
    decreases tokens.len(),
{
    if tokens.len() > 1 {
        pointer_text_starts_with_slash(tokens.drop_last());
    } else {
        assert(tokens.drop_last().len() == 0);
        assert(pointer_text(tokens.drop_last()).len() == 0);
    }
}

/// The variants of a location, before collation.
pub fn variants_of(location: &Pointer) -> (variants: Vec<String>)
    ensures
        views(variants@) == field_name_variants(location@),
{
    let mut variants: Vec<String> = Vec::new();
    let n = location.0.len();
    if n == 0 {
        assert(views(variants@) == field_name_variants(location@));
        return variants;
    }
    let mut parts: Vec<Vec<char>> = Vec::new();
    let mut i: usize = 0;
    while i < n
        invariant
            n == location.0.len(),
            i <= n,
            parts@.len() == i,
            forall|k: int| 0 <= k < i ==> (#[trigger] parts@[k])@ == token_text(location@[k]),
        decreases n - i,
    {
        parts.push(location.0[i].text());
        i = i + 1;
    }
    assert(texts(parts@) == token_texts(location@));
    let mut underscore: Vec<char> = Vec::new();
    underscore.push('_');
    let mut space: Vec<char> = Vec::new();
    space.push(' ');
    let nothing: Vec<char> = Vec::new();
    assert(underscore@ == seq!['_'] && space@ == seq![' '] && nothing@ == Seq::<char>::empty());
    let whole = location.text_chars();
    proof {
        pointer_text_starts_with_slash(location@);
    }
    let mut bare: Vec<char> = Vec::new();
    let mut k: usize = 1;
    while k < whole.len()
        invariant
            1 <= k <= whole.len(),
            bare@ == whole@.subrange(1, k as int),
        decreases whole.len() - k,
    {
        bare.push(whole[k]);
        k = k + 1;
    }
    assert(bare@ == whole@.skip(1));
    variants.push(string_of(&join_texts(&parts, &underscore)));
    variants.push(string_of(&join_texts(&parts, &space)));
    variants.push(string_of(&join_texts(&parts, &nothing)));
    variants.push(string_of(&whole));
    variants.push(string_of(&bare));
    if n == 1 {
        variants.push(string_of(&replace_in_text(&parts[0], '_', ' ')));
    }
    assert(views(variants@) == field_name_variants(location@));
    variants
}

/// Puts `item` where it belongs in an ascending run, unless the run holds
/// it already.
fn insert_sorted(sorted: &mut Vec<Vec<char>>, item: Vec<char>)
    requires
        strictly_sorted(texts(old(sorted)@)),
    ensures
        strictly_sorted(texts(final(sorted)@)),
        forall|name: Seq<char>|
            texts(final(sorted)@).contains(name) <==> (texts(old(sorted)@).contains(name) || name
                == item@),
{
    let ghost before = texts(sorted@);
    let mut at: usize = 0;
    while at < sorted.len() && text_precedes(&sorted[at], &item)
        invariant
            at <= sorted.len(),
            before == texts(sorted@),
            forall|k: int| 0 <= k < at ==> precedes(#[trigger] before[k], item@),
        decreases sorted.len() - at,
    {
        at = at + 1;
    }
    if at < sorted.len() && !text_precedes(&item, &sorted[at]) {
        proof {
            precedes_is_total(item@, before[at as int]);
            assert(before.contains(item@));
        }
        return ;
    }
    proof {
        assert forall|k: int| at <= k < before.len() implies precedes(item@, #[trigger] before[k]) by {
            if k > at {
                precedes_is_transitive(item@, before[at as int], before[k]);
            }
        }
    }
    let ghost name = item@;
    sorted.insert(at, item);
    proof {
        let after = texts(sorted@);
        assert(after.len() == before.len() + 1);
        assert forall|k: int| 0 <= k < after.len() implies after[k] == (if k < at {
            before[k]
        } else if k == at {
            name
        } else {
            before[k - 1]
        }) by {}
        assert forall|i: int, j: int| 0 <= i < j < after.len() implies precedes(
            after[i],
            after[j],
        ) by {
            if j < at {
            } else if j == at {
            } else if i < at {
                precedes_is_transitive(before[i], name, before[j - 1]);
            } else if i == at {
            } else {
            }
        }
        assert forall|x: Seq<char>| after.contains(x) <==> (before.contains(x) || x == name) by {
            if after.contains(x) {
                let k = choose|k: int| 0 <= k < after.len() && after[k] == x;
                if k < at {
                    assert(before[k] == x);
                } else if k > at {
                    assert(before[k - 1] == x);
                }
            }
            if before.contains(x) {
                let k = choose|k: int| 0 <= k < before.len() && before[k] == x;
                if k < at {
                    assert(after[k] == x);
                } else {
                    assert(after[k + 1] == x);
                }
            }
            if x == name {
                assert(after[at as int] == x);
            }
        }
    }
}

/// The texts of `items`, each once, in ascending order.
pub fn sort_unique(items: &Vec<String>) -> (names: Vec<String>)
    ensures
        sorted_set_of(views(names@), views(items@)),
{
    let mut sorted: Vec<Vec<char>> = Vec::new();
    let mut i: usize = 0;
    let ghost all = views(items@);
    while i < items.len()
        invariant
            i <= items.len(),
            all == views(items@),
            strictly_sorted(texts(sorted@)),
            forall|name: Seq<char>|
                texts(sorted@).contains(name) <==> all.take(i as int).contains(name),
        decreases items.len() - i,
    {
        let ghost before = texts(sorted@);
        let item = chars_of(items[i].as_str());
        insert_sorted(&mut sorted, item);
        proof {
            let seen = all.take(i as int);
            let next = all.take(i + 1);
            assert(next == seen.push(all[i as int]));
            assert forall|name: Seq<char>| texts(sorted@).contains(name) <==> next.contains(
                name,
            ) by {
                if next.contains(name) {
                    let k = choose|k: int| 0 <= k < next.len() && next[k] == name;
                    if k < i {
                        assert(seen[k] == name);
                    }
                }
                if seen.contains(name) {
                    let k = choose|k: int| 0 <= k < seen.len() && seen[k] == name;
                    assert(next[k] == name);
                }
                assert(next[i as int] == all[i as int]);
            }
        }
        i = i + 1;
    }
    assert(all.take(i as int) == all);
    let mut names: Vec<String> = Vec::new();
    let mut k: usize = 0;
    while k < sorted.len()
        invariant
            k <= sorted.len(),
            names@.len() == k,
            forall|j: int| 0 <= j < k ==> (#[trigger] names@[j])@ == sorted@[j]@,
        decreases sorted.len() - k,
    {
        names.push(string_of(&sorted[k]));
        k = k + 1;
    }
    assert(views(names@) == texts(sorted@));
    names
}

/// The field names under which a location may appear in a header: its
/// variants, collated, each once, in ascending order.
pub fn field_names_of(location: &Pointer) -> (names: Vec<String>)
    ensures
        derived_names(views(names@), location@),
        location@.len() == 0 ==> names@.len() == 0,
{
    let variants = variants_of(location);
    let mut folded: Vec<String> = Vec::new();
    let mut i: usize = 0;
    while i < variants.len()
        invariant
            i <= variants.len(),
            folded@.len() == i,
            forall|k: int| 0 <= k < i ==> (#[trigger] folded@[k])@ == collation(variants@[k]@),
        decreases variants.len() - i,
    {
        folded.push(collate(variants[i].as_str()));
        i = i + 1;
    }
    assert(views(folded@) == collated(views(variants@)));
    let names = sort_unique(&folded);
    proof {
        if location@.len() == 0 && names@.len() > 0 {
            assert(views(names@).contains(views(names@)[0]));
        }
    }
    names
}

/// The field names derived from a pointer given as text. The empty text is
/// the root, which has none.
pub fn derive_field_names(pointer: &str) -> (names: Vec<String>)
    ensures
        derived_names(views(names@), pointer_tokens(pointer@)),
        pointer@.len() == 0 ==> names@.len() == 0,
{
    let location = Pointer::from_str(pointer);
    field_names_of(&location)
}

/// An ascending run has as many places as it holds texts.
pub proof fn sorted_run_counts(fields: Seq<Seq<char>>)
    requires
        strictly_sorted(fields),
    ensures
        fields.to_set().finite(),
        fields.to_set().len() == fields.len(),
{
    assert(fields.no_duplicates()) by {
        assert forall|i: int, j: int| 0 <= i < fields.len() && 0 <= j < fields.len() && i
            != j implies fields[i] != fields[j] by {
            precedes_is_irreflexive(fields[i]);
            if i < j {
                assert(precedes(fields[i], fields[j]));
            } else {
                assert(precedes(fields[j], fields[i]));
            }
        }
    }
    fields.unique_seq_to_set();
}

/// Two ascending runs that hold the same texts are the same run.
pub proof fn sorted_runs_agree(a: Seq<Seq<char>>, b: Seq<Seq<char>>)
    requires
        strictly_sorted(a),
        strictly_sorted(b),
        forall|text: Seq<char>| a.contains(text) <==> b.contains(text),
    ensures
        a == b,
    decreases a.len(),
{
    sorted_run_counts(a);
    sorted_run_counts(b);
    assert(a.to_set() =~= b.to_set());
    if a.len() > 0 {
        let n = a.len() - 1;
        // The last text of each run is the greatest of the common texts.
        assert(b.contains(a[n])) by {
            assert(a.contains(a[n]));
        }
        assert(a.contains(b[n])) by {
            assert(b.contains(b[n]));
        }
        let i = choose|i: int| 0 <= i < b.len() && b[i] == a[n];
        let j = choose|j: int| 0 <= j < a.len() && a[j] == b[n];
        precedes_is_irreflexive(a[n]);
        if i < n {
            assert(precedes(b[i], b[n]));
            if j < n {
                assert(precedes(a[j], a[n]));
                precedes_is_transitive(a[n], b[n], a[n]);
            }
        }
        assert(a[n] == b[n]);
        let a0 = a.drop_last();
        let b0 = b.drop_last();
        assert forall|text: Seq<char>| a0.contains(text) <==> b0.contains(text) by {
            if a0.contains(text) {
                let k = choose|k: int| 0 <= k < a0.len() && a0[k] == text;
                assert(a[k] == text);
                assert(precedes(a[k], a[n]));
                assert(a.contains(text));
                let m = choose|m: int| 0 <= m < b.len() && b[m] == text;
                if m == n {
                    assert(false);
                }
                assert(b0[m] == text);
            }
            if b0.contains(text) {
                let k = choose|k: int| 0 <= k < b0.len() && b0[k] == text;
                assert(b[k] == text);
                assert(precedes(b[k], b[n]));
                assert(b.contains(text));
                let m = choose|m: int| 0 <= m < a.len() && a[m] == text;
                if m == n {
                    assert(false);
                }
                assert(a0[m] == text);
            }
        }
        sorted_runs_agree(a0, b0);
        assert(a == a0.push(a[n]));
        assert(b == b0.push(b[n]));
    } else {
        assert(a =~= b);
    }
}

/// The derived names of a location are one list and no other: two lists
/// that both hold its collated variants, each once and in ascending order,
/// are the same.
pub proof fn derived_names_are_unique(
    first: Seq<Seq<char>>,
    second: Seq<Seq<char>>,
    tokens: Seq<TokenView>,
)
    requires
        derived_names(first, tokens),
        derived_names(second, tokens),
    ensures
        first == second,
{
    sorted_runs_agree(first, second);
}

/// For a pointer given in canonical text, that text is itself a variant,
/// and so is the text without its leading `/`.
pub proof fn canonical_text_is_a_variant(text: Seq<char>)
    requires
        is_canonical(text),
        text.len() > 0,
    ensures
        field_name_variants(pointer_tokens(text)).len() >= 5,
        field_name_variants(pointer_tokens(text))[3] == text,
        field_name_variants(pointer_tokens(text))[4] == text.skip(1),
{
    canonical_text_reads_back(text);
    if pointer_tokens(text).len() == 0 {
        assert(pointer_text(pointer_tokens(text)).len() == 0);
    }
}

} // verus!
