use vstd::prelude::*;

use crate::strutil::{append_str, push_char, spec_is_ws};
use vstd::string::StringSliceAdditionalSpecFns;

verus! {

/// Tokens longer than this many bytes are not indexed.
pub const MAX_WORD_LENGTH_TO_INDEX: usize = 80;

/// What lowercasing makes of a string.
pub uninterp spec fn lower_of(s: Seq<char>) -> Seq<char>;

/// Relies on str::to_lowercase: the result depends on the characters alone,
/// and an empty string stays empty.
#[verifier::external_body]
fn lowercase(s: &str) -> (r: String)
    ensures
        r@ == lower_of(s@),
        s@.len() == 0 ==> r@.len() == 0,
{
    s.to_lowercase()
}

/// A token separator: whitespace or a hyphen.
pub open spec fn spec_is_sep(c: char) -> bool {
    spec_is_ws(c) || c == '-'
}

/// What one accumulated word contributes: nothing when it is empty or its
/// lowercase form is too long to index, its lowercase form otherwise.
pub open spec fn spec_close_word(cur: Seq<char>) -> Seq<Seq<char>> {
    if cur.len() > 0 && vstd::utf8::encode_utf8(lower_of(cur)).len() as usize
        <= MAX_WORD_LENGTH_TO_INDEX {
        seq![lower_of(cur)]
    } else {
        Seq::empty()
    }
}

/// Tokenization with the word collected so far: separators close the word,
/// other characters extend it.
pub open spec fn spec_tokens_acc(s: Seq<char>, cur: Seq<char>) -> Seq<Seq<char>>
    decreases s.len(),
{
    if s.len() == 0 {
        spec_close_word(cur)
    } else if spec_is_sep(s[0]) {
        spec_close_word(cur) + spec_tokens_acc(s.drop_first(), Seq::empty())
    } else {
        spec_tokens_acc(s.drop_first(), cur.push(s[0]))
    }
}

/// The search tokens of a text: split at whitespace and hyphens, lowercased,
/// overlong words dropped.
pub open spec fn spec_tokens(s: Seq<char>) -> Seq<Seq<char>> {
    spec_tokens_acc(s, Seq::empty())
}

fn is_sep(c: char) -> (r: bool)
    ensures
        r == spec_is_sep(c),
{
    c == ' ' || c == '\t' || c == '\n' || c == '\r' || c == '-'
}

/// Tokenizes as the search index does: splits at whitespace and hyphens,
/// lowercases each word, and drops words longer than the index limit.
pub fn tokenize(text: &str) -> (r: Vec<String>)
    ensures
        r@.map_values(|t: String| t@) == spec_tokens(text@),
{
    let ghost f = |t: String| t@;
    let mut out: Vec<String> = Vec::new();
    let mut cur = String::new();
    let n = text.unicode_len();
    let mut i: usize = 0;
    proof {
        assert(text@.skip(0) =~= text@);
        assert(out@.map_values(f) =~= Seq::<Seq<char>>::empty());
    }
    while i < n
        invariant
            0 <= i <= n,
            n == text@.len(),
            f == (|t: String| t@),
            spec_tokens(text@) == out@.map_values(f) + spec_tokens_acc(
                text@.skip(i as int),
                cur@,
            ),
        decreases n - i,
    {
        let ghost suffix = text@.skip(i as int);
        proof {
            assert(suffix[0] == text@[i as int]);
            assert(suffix.drop_first() =~= text@.skip(i as int + 1));
        }
        let c = text.get_char(i);
        if is_sep(c) {
            close_word(&mut out, &mut cur);
            proof {
                assert(out@.map_values(f) + spec_tokens_acc(text@.skip(i as int + 1), cur@)
                    =~= spec_tokens(text@));
            }
        } else {
            push_char(&mut cur, c);
        }
        i = i + 1;
    }
    proof {
        assert(text@.skip(n as int) =~= Seq::<char>::empty());
    }
    close_word(&mut out, &mut cur);
    proof {
        assert(out@.map_values(f) =~= spec_tokens(text@));
    }
    out
}

/// Closes the word collected so far: pushes its lowercase form unless it is
/// empty or too long, and empties the collector.
fn close_word(out: &mut Vec<String>, cur: &mut String)
    ensures
        final(out)@.map_values(|t: String| t@) == old(out)@.map_values(|t: String| t@)
            + spec_close_word(old(cur)@),
        final(cur)@ == Seq::<char>::empty(),
{
    let ghost f = |t: String| t@;
    if cur.as_str().unicode_len() > 0 {
        let lw = lowercase(cur.as_str());
        let sl = lw.as_str();
        let bl = sl.len();
        proof {
            assert(sl@ == lw@);
            assert(sl.spec_bytes() == vstd::utf8::encode_utf8(lw@));
            assert(bl == vstd::utf8::encode_utf8(lower_of(old(cur)@)).len() as usize);
        }
        if bl <= MAX_WORD_LENGTH_TO_INDEX {
            out.push(lw);
            proof {
                assert(out@.last()@ == lower_of(old(cur)@));
                assert(vstd::utf8::encode_utf8(lower_of(old(cur)@)).len() as usize
                    <= MAX_WORD_LENGTH_TO_INDEX);
                assert(spec_close_word(old(cur)@) =~= seq![lower_of(old(cur)@)]);
                assert(out@.map_values(f) =~= old(out)@.map_values(f) + seq![out@.last()@]);
                assert(out@.map_values(f) =~= old(out)@.map_values(f) + spec_close_word(
                    old(cur)@,
                ));
            }
        } else {
            proof {
                assert(vstd::utf8::encode_utf8(lower_of(old(cur)@)).len() as usize
                    > MAX_WORD_LENGTH_TO_INDEX);
                assert(spec_close_word(old(cur)@) =~= Seq::<Seq<char>>::empty());
                assert(out@.map_values(f) =~= old(out)@.map_values(f) + spec_close_word(
                    old(cur)@,
                ));
            }
        }
    } else {
        proof {
            assert(spec_close_word(old(cur)@) =~= Seq::<Seq<char>>::empty());
            assert(out@.map_values(f) =~= old(out)@.map_values(f) + spec_close_word(old(cur)@));
        }
    }
    *cur = String::new();
}

/// The url of one indexed document: the rendered page, with the section
/// anchor when one is given.
pub open spec fn spec_doc_url(anchor_base: Seq<char>, section_id: Option<Seq<char>>) -> Seq<
    char,
> {
    match section_id {
        Some(id) => anchor_base + seq!['#'] + id,
        None => anchor_base,
    }
}

pub fn doc_url(anchor_base: &String, section_id: &Option<String>) -> (r: String)
    ensures
        r@ == spec_doc_url(anchor_base@, crate::meta::opt_str_model(*section_id)),
{
    match section_id {
        Some(id) => {
            let mut out = anchor_base.clone();
            push_char(&mut out, '#');
            append_str(&mut out, id.as_str());
            out
        },
        None => anchor_base.clone(),
    }
}

} // verus!
