use vstd::prelude::*;
use vstd::utf8::{decode_utf8, valid_utf8};

verus! {

/// The bytes obtained by reading every character up to U+00FF as one Latin-1
/// byte; characters beyond that range are dropped.
pub open spec fn latin1_bytes(cs: Seq<char>) -> Seq<u8>
    decreases cs.len(),
{
    if cs.len() == 0 {
        seq![]
    } else {
        let rest = latin1_bytes(cs.drop_last());
        if (cs.last() as u32) <= 0xFF {
            rest.push((cs.last() as u32) as u8)
        } else {
            rest
        }
    }
}

/// `pattern` occurs somewhere in `s` as a contiguous run of characters.
pub open spec fn has_text(s: Seq<char>, pattern: Seq<char>) -> bool {
    exists|i: int| 0 <= i <= s.len() - pattern.len() && #[trigger] s.subrange(i, i + pattern.len()) == pattern
}

/// Weight of the typical double-encoding artefacts found in `s`.
pub open spec fn suspicion_of(s: Seq<char>) -> int {
    (if has_text(s, "Ã¤"@) || has_text(s, "Ã¶"@) || has_text(s, "Ã¼"@) { 10int } else { 0int })
        + (if has_text(s, "Ã„"@) || has_text(s, "Ã–"@) || has_text(s, "Ãœ"@) { 10int } else { 0int })
        + (if has_text(s, "ÃŸ"@) { 10int } else { 0int })
        + (if has_text(s, "Ã©"@) || has_text(s, "Ã¨"@) || has_text(s, "Ã«"@) { 5int } else { 0int })
}

/// The repaired text: the Latin-1 reading of `s` decoded as UTF-8, kept only
/// when it decodes, differs from `s`, and carries fewer artefacts.
pub open spec fn repaired(s: Seq<char>) -> Seq<char> {
    let b = latin1_bytes(s);
    if valid_utf8(b) && decode_utf8(b) != s && suspicion_of(decode_utf8(b)) < suspicion_of(s) {
        decode_utf8(b)
    } else {
        s
    }
}

proof fn lemma_suspicion_nonneg(s: Seq<char>)
    ensures
        0 <= suspicion_of(s) <= 35,
{
}

/// The text after repairing until a repair changes nothing more. Each change
/// lowers the artefact weight, which starts at most at 35, so this ends.
pub open spec fn settled(s: Seq<char>) -> Seq<char>
    decreases suspicion_of(s) + 1,
{
    if suspicion_of(s) < 0 || repaired(s) == s {
        s
    } else {
        settled(repaired(s))
    }
}

/// A settled text is left alone by a further repair.
pub proof fn settled_is_fixed_point(s: Seq<char>)
    ensures
        repaired(settled(s)) == settled(s),
    decreases suspicion_of(s) + 1,
{
    lemma_suspicion_nonneg(s);
    if repaired(s) != s {
        settled_is_fixed_point(repaired(s));
    }
}

/// Repairing a repaired text changes nothing.
pub proof fn fix_twice_is_fix_once(s: Seq<char>)
    ensures
        settled(settled(s)) == settled(s),
{
    settled_is_fixed_point(s);
    lemma_suspicion_nonneg(settled(s));
}

/// Relies on `str::contains` with a `&str` pattern: true exactly when the
/// pattern occurs as a substring.
#[verifier::external_body]
fn contains_text(s: &str, pattern: &str) -> (r: bool)
    ensures
        r == has_text(s@, pattern@),
{
    s.contains(pattern)
}

/// Relies on `String::from_utf8`: it succeeds exactly on well-formed UTF-8
/// and then holds the decoded characters.
#[verifier::external_body]
fn utf8_string(bytes: Vec<u8>) -> (r: Option<String>)
    ensures
        r is Some <==> valid_utf8(bytes@),
        r is Some ==> r->0@ == decode_utf8(bytes@),
{
    String::from_utf8(bytes).ok()
}

pub fn count_suspicious(s: &str) -> (r: usize)
    ensures
        r as int == suspicion_of(s@),
{
    let mut count: usize = 0;
    if contains_text(s, "Ã¤") || contains_text(s, "Ã¶") || contains_text(s, "Ã¼") {
        count += 10;
    }
    if contains_text(s, "Ã„") || contains_text(s, "Ã–") || contains_text(s, "Ãœ") {
        count += 10;
    }
    if contains_text(s, "ÃŸ") {
        count += 10;
    }
    if contains_text(s, "Ã©") || contains_text(s, "Ã¨") || contains_text(s, "Ã«") {
        count += 5;
    }
    count
}

pub fn seems_better(fixed: &str, original: &str) -> (r: bool)
    ensures
        r == (suspicion_of(fixed@) < suspicion_of(original@)),
{
    let original_suspicious = count_suspicious(original);
    let fixed_suspicious = count_suspicious(fixed);
    fixed_suspicious < original_suspicious
}

fn repair_once(s: &str) -> (r: String)
    ensures
        r@ == repaired(s@),
{
    let mut latin1: Vec<u8> = Vec::new();
    for c in it: s.chars()
        invariant
            it.seq() == s@,
            latin1@ == latin1_bytes(it.seq().take(it.index() as int)),
        ensures
            latin1@ == latin1_bytes(s@.take(s@.len() as int)),
    {
        proof {
            let i = it.index() as int;
            assert(it.seq().take(i + 1).drop_last() =~= it.seq().take(i));
        }
        let code = c as u32;
        if code <= 0xFF {
            latin1.push(code as u8);
        }
    }
    assert(s@.take(s@.len() as int) =~= s@);
    let unchanged = String::from_str(s);
    match utf8_string(latin1) {
        Some(fixed) => {
            if fixed != unchanged && seems_better(fixed.as_str(), s) {
                fixed
            } else {
                unchanged
            }
        },
        None => unchanged,
    }
}

/// Undoes UTF-8 text that was mistakenly decoded as Latin-1, as long as doing
/// so visibly reduces the number of garbled sequences. The result is left
/// unchanged by a second call.
pub fn fix_mojibake(s: &str) -> (r: String)
    ensures
        r@ == settled(s@),
        repaired(r@) == r@,
{
    proof {
        settled_is_fixed_point(s@);
    }
    let mut current = String::from_str(s);
    loop
        invariant
            settled(current@) == settled(s@),
        decreases suspicion_of(current@),
    {
        proof {
            lemma_suspicion_nonneg(current@);
        }
        let next = repair_once(current.as_str());
        if next == current {
            return current;
        }
        current = next;
    }
}

} // verus!
