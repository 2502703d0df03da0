use vstd::prelude::*;

verus! {

/// Unicode Normalization Form D of a text: its canonical decomposition.
pub uninterp spec fn canonical_decomposition(text: Seq<char>) -> Seq<char>;

/// The default (full) Unicode case folding of a text.
pub uninterp spec fn default_case_folding(text: Seq<char>) -> Seq<char>;

/// Unicode Normalization Form KC of a text: its compatibility decomposition
/// followed by canonical composition.
pub uninterp spec fn compatibility_composition(text: Seq<char>) -> Seq<char>;

/// The collated form of a text: decompose canonically, fold case, then
/// recompose in compatibility form, in that order.
pub open spec fn collation(text: Seq<char>) -> Seq<char> {
    compatibility_composition(default_case_folding(canonical_decomposition(text)))
}

/// Calls `unicode_normalization::UnicodeNormalization::nfd` on `text` and
/// collects the characters it yields. Trusted: the result is the text in
/// Normalization Form D, which depends on the characters of `text` alone.
#[verifier::external_body]
fn nfd(text: &str) -> (out: String)
    ensures
        out@ == canonical_decomposition(text@),
{
    unicode_normalization::UnicodeNormalization::nfd(text).collect()
}

/// Calls `caseless::Caseless::default_case_fold` on the characters of `text`
/// and collects what it yields. Trusted: the result is the default case
/// folding of the text, which depends on the characters of `text` alone.
#[verifier::external_body]
fn case_fold(text: &str) -> (out: String)
    ensures
        out@ == default_case_folding(text@),
{
    caseless::Caseless::default_case_fold(text.chars()).collect()
}

/// Calls `unicode_normalization::UnicodeNormalization::nfkc` on `text` and
/// collects the characters it yields. Trusted: the result is the text in
/// Normalization Form KC, which depends on the characters of `text` alone.
#[verifier::external_body]
fn nfkc(text: &str) -> (out: String)
    ensures
        out@ == compatibility_composition(text@),
{
    unicode_normalization::UnicodeNormalization::nfkc(text).collect()
}

/// Maps a text to the form under which field names are compared: caseless
/// and normalized, whatever the locale.
pub fn collate(text: &str) -> (out: String)
    ensures
        out@ == collation(text@),
{
    let decomposed = nfd(text);
    let folded = case_fold(decomposed.as_str());
    nfkc(folded.as_str())
}

} // verus!
