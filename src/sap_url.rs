use crate::models::{decimal_text, i64_text};
use vstd::prelude::*;

verus! {

/// Seconds since the epoch of the given UTC date and time, or `None` where
/// the fields name no such time.
pub uninterp spec fn utc_seconds_of(
    year: int,
    month: int,
    day: int,
    hour: int,
    minute: int,
    second: int,
) -> Option<i64>;

/// Relies on chrono's `Utc.with_ymd_and_hms(..).single()` and `timestamp`:
/// the seconds since the epoch of that UTC time, `None` where chrono rejects
/// the fields. chrono accepts every valid date of a year from -262143 to
/// 262142 (`NaiveDate::from_ymd_opt`, `and_hms_opt`), and `Utc` maps each
/// such local time to exactly one instant.
#[verifier::external_body]
fn utc_seconds(year: i32, month: u32, day: u32, hour: u32, minute: u32, second: u32) -> (r: Option<
    i64,
>)
    ensures
        r == utc_seconds_of(year as int, month as int, day as int, hour as int, minute as int, second as int),
        -262143 <= year <= 262142 && 1 <= month <= 12 && 1 <= day <= 28 && hour < 24 && minute < 60
            && second < 60 ==> r is Some,
{
    chrono::TimeZone::with_ymd_and_hms(&chrono::Utc, year, month, day, hour, minute, second).single().map(
        |d| d.timestamp(),
    )
}

/// Relies on `String::push`: appends one character.
#[verifier::external_body]
fn push_char(s: &mut String, c: char)
    ensures
        final(s)@ == old(s)@.push(c),
{
    s.push(c)
}

/// The position of the first `c` in `s`.
pub open spec fn first_index(s: Seq<char>, c: char) -> Option<int>
    decreases s.len(),
{
    if s.len() == 0 {
        None
    } else {
        match first_index(s.drop_last(), c) {
            Some(i) => Some(i),
            None => if s.last() == c {
                Some(s.len() - 1)
            } else {
                None
            },
        }
    }
}

/// The pieces of `s` between `&` separators; an empty text is one empty piece.
pub open spec fn split_params(s: Seq<char>) -> Seq<Seq<char>>
    decreases s.len(),
{
    if s.len() == 0 {
        seq![seq![]]
    } else {
        let init = split_params(s.drop_last());
        if s.last() == '&' {
            init.push(seq![])
        } else {
            init.update(init.len() - 1, init.last().push(s.last()))
        }
    }
}

pub open spec fn starts_with(s: Seq<char>, prefix: Seq<char>) -> bool {
    prefix.len() <= s.len() && s.take(prefix.len() as int) == prefix
}

/// A query parameter that the time window does not replace.
pub open spec fn kept_param(p: Seq<char>) -> bool {
    !starts_with(p, "start="@) && !starts_with(p, "end="@)
}

pub open spec fn kept_params(ps: Seq<Seq<char>>) -> Seq<Seq<char>>
    decreases ps.len(),
{
    if ps.len() == 0 {
        seq![]
    } else if kept_param(ps.last()) {
        kept_params(ps.drop_last()).push(ps.last())
    } else {
        kept_params(ps.drop_last())
    }
}

/// The pieces joined with `&`.
pub open spec fn join_params(ps: Seq<Seq<char>>) -> Seq<char>
    decreases ps.len(),
{
    if ps.len() == 0 {
        seq![]
    } else if ps.len() == 1 {
        ps[0]
    } else {
        join_params(ps.drop_last()) + "&"@ + ps.last()
    }
}

/// `url` without its `start=` and `end=` query parameters; the `?` goes too
/// when no parameter is left.
pub open spec fn without_window(url: Seq<char>) -> Seq<char> {
    match first_index(url, '?') {
        None => url,
        Some(q) => {
            let ps = kept_params(split_params(url.subrange(q + 1, url.len() as int)));
            if ps.len() == 0 {
                url.take(q)
            } else {
                url.take(q) + "?"@ + join_params(ps)
            }
        },
    }
}

/// `url` with its window parameters replaced by `start` and `end`.
pub open spec fn with_window(url: Seq<char>, start: int, end: int) -> Seq<char> {
    let base = without_window(url);
    base + (if first_index(base, '?') is Some {
        "&"@
    } else {
        "?"@
    }) + "start="@ + decimal_text(start) + "&end="@ + decimal_text(end)
}

/// The month before `(year, month)`, as year and month.
pub open spec fn previous_month(year: int, month: int) -> (int, int) {
    if month == 1 {
        (year - 1, 12)
    } else {
        (year, month - 1)
    }
}

/// The month five after `(year, month)`, as year and month.
pub open spec fn fifth_month_after(year: int, month: int) -> (int, int) {
    if month + 5 > 12 {
        (year + 1, month + 5 - 12)
    } else {
        (year, month + 5)
    }
}

proof fn lemma_first_index(s: Seq<char>, c: char)
    ensures
        first_index(s, c) matches Some(i) ==> 0 <= i < s.len() && s[i] == c && forall|j: int|
            0 <= j < i ==> s[j] != c,
        first_index(s, c) is None ==> forall|j: int| 0 <= j < s.len() ==> s[j] != c,
    decreases s.len(),
{
    if s.len() > 0 {
        lemma_first_index(s.drop_last(), c);
        assert forall|j: int| 0 <= j < s.len() - 1 implies s[j] == s.drop_last()[j] by {}
    }
}

fn chars_of(s: &str) -> (r: Vec<char>)
    ensures
        r@ == s@,
{
    let mut r: Vec<char> = Vec::new();
    for c in it: s.chars()
        invariant
            it.seq() == s@,
            r@ == it.seq().take(it.index() as int),
        ensures
            r@ == s@.take(s@.len() as int),
    {
        r.push(c);
        assert(r@ =~= it.seq().take(it.index() as int + 1));
    }
    assert(s@.take(s@.len() as int) =~= s@);
    r
}

fn find_char(s: &Vec<char>, c: char) -> (r: Option<usize>)
    ensures
        r matches Some(i) ==> first_index(s@, c) == Some(i as int) && i < s@.len(),
        r is None ==> first_index(s@, c) is None,
{
    proof {
        lemma_first_index(s@, c);
    }
    let mut i: usize = 0;
    while i < s.len()
        invariant
            i <= s@.len(),
            forall|j: int| 0 <= j < i ==> s@[j] != c,
            first_index(s@, c) matches Some(k) ==> 0 <= k < s@.len() && s@[k] == c && forall|j: int|
                0 <= j < k ==> s@[j] != c,
            first_index(s@, c) is None ==> forall|j: int| 0 <= j < s@.len() ==> s@[j] != c,
        decreases s@.len() - i,
    {
        if s[i] == c {
            return Some(i);
        }
        i += 1;
    }
    None
}

fn has_prefix(s: &Vec<char>, prefix: &Vec<char>) -> (r: bool)
    ensures
        r == starts_with(s@, prefix@),
{
    if prefix.len() > s.len() {
        return false;
    }
    let mut i: usize = 0;
    while i < prefix.len()
        invariant
            prefix@.len() <= s@.len(),
            i <= prefix@.len(),
            s@.take(i as int) == prefix@.take(i as int),
        decreases prefix@.len() - i,
    {
        if s[i] != prefix[i] {
            assert(s@.take(prefix@.len() as int)[i as int] != prefix@[i as int]);
            return false;
        }
        i += 1;
        assert(s@.take(i as int) =~= prefix@.take(i as int));
    }
    assert(prefix@.take(i as int) =~= prefix@);
    true
}

fn split_query(s: &Vec<char>, from: usize) -> (r: Vec<Vec<char>>)
    requires
        from <= s@.len(),
    ensures
        r@.map_values(|p: Vec<char>| p@) == split_params(s@.subrange(from as int, s@.len() as int)),
{
    let ghost q = s@.subrange(from as int, s@.len() as int);
    let mut r: Vec<Vec<char>> = Vec::new();
    let mut piece: Vec<char> = Vec::new();
    let mut i: usize = from;
    while i < s.len()
        invariant
            from <= i <= s@.len(),
            q == s@.subrange(from as int, s@.len() as int),
            r@.map_values(|p: Vec<char>| p@).push(piece@) == split_params(q.take(i - from)),
        decreases s@.len() - i,
    {
        let ghost k = (i - from) as int;
        assert(q.take(k + 1).drop_last() =~= q.take(k));
        assert(q.take(k + 1).last() == s@[i as int]);
        let ghost before = r@.map_values(|p: Vec<char>| p@).push(piece@);
        if s[i] == '&' {
            let done = piece;
            piece = Vec::new();
            r.push(done);
            assert(r@.map_values(|p: Vec<char>| p@).push(piece@) =~= before.push(seq![]));
        } else {
            piece.push(s[i]);
            assert(r@.map_values(|p: Vec<char>| p@).push(piece@) =~= before.update(
                before.len() - 1,
                before.last().push(s@[i as int]),
            ));
        }
        i += 1;
    }
    assert(q.take(i - from) =~= q);
    r.push(piece);
    r
}

fn keep_params(ps: Vec<Vec<char>>) -> (r: Vec<Vec<char>>)
    ensures
        r@.map_values(|p: Vec<char>| p@) == kept_params(ps@.map_values(|p: Vec<char>| p@)),
{
    let ghost all = ps@.map_values(|p: Vec<char>| p@);
    let start = chars_of("start=");
    let end = chars_of("end=");
    let mut r: Vec<Vec<char>> = Vec::new();
    for p in it: ps
        invariant
            it.seq() == ps@,
            all == ps@.map_values(|p: Vec<char>| p@),
            start@ == "start="@,
            end@ == "end="@,
            r@.map_values(|p: Vec<char>| p@) == kept_params(all.take(it.index() as int)),
        ensures
            r@.map_values(|p: Vec<char>| p@) == kept_params(all.take(all.len() as int)),
    {
        let ghost k = it.index() as int;
        assert(all.take(k + 1).drop_last() =~= all.take(k));
        assert(all.take(k + 1).last() == p@);
        let ghost before = r@.map_values(|p: Vec<char>| p@);
        if !has_prefix(&p, &start) && !has_prefix(&p, &end) {
            let ghost pv = p@;
            r.push(p);
            assert(r@.map_values(|p: Vec<char>| p@) =~= before.push(pv));
        }
    }
    assert(all.take(all.len() as int) =~= all);
    r
}

fn append_chars(out: &mut String, cs: &Vec<char>)
    ensures
        final(out)@ == old(out)@ + cs@,
{
    let ghost start = out@;
    let mut i: usize = 0;
    while i < cs.len()
        invariant
            i <= cs@.len(),
            out@ == start + cs@.take(i as int),
        decreases cs@.len() - i,
    {
        push_char(out, cs[i]);
        i += 1;
        assert(out@ =~= start + cs@.take(i as int));
    }
    assert(cs@.take(i as int) =~= cs@);
}

fn string_without_window(url: &str) -> (r: String)
    ensures
        r@ == without_window(url@),
{
    let cs = chars_of(url);
    match find_char(&cs, '?') {
        None => String::from_str(url),
        Some(q) => {
            let params = keep_params(split_query(&cs, q + 1));
            let ghost ps = params@.map_values(|p: Vec<char>| p@);
            let mut r = String::new();
            let mut i: usize = 0;
            while i < q
                invariant
                    q < cs@.len(),
                    i <= q,
                    r@ == cs@.take(i as int),
                decreases q - i,
            {
                push_char(&mut r, cs[i]);
                i += 1;
                assert(r@ =~= cs@.take(i as int));
            }
            let ghost base = r@;
            let mut j: usize = 0;
            while j < params.len()
                invariant
                    j <= params@.len(),
                    ps == params@.map_values(|p: Vec<char>| p@),
                    j == 0 ==> r@ == base,
                    j > 0 ==> r@ == base + "?"@ + join_params(ps.take(j as int)),
                decreases params@.len() - j,
            {
                assert(ps.take(j as int + 1).drop_last() =~= ps.take(j as int));
                if j == 0 {
                    r.append("?");
                    assert(ps.take(1) =~= seq![ps[0]]);
                } else {
                    r.append("&");
                }
                append_chars(&mut r, &params[j]);
                proof {
                    if j == 0 {
                        assert(r@ =~= base + "?"@ + join_params(ps.take(1)));
                    } else {
                        assert(r@ =~= base + "?"@ + join_params(ps.take(j as int + 1)));
                    }
                }
                j += 1;
            }
            assert(ps.take(j as int) =~= ps);
            r
        },
    }
}

/// The feed URL for the window from the first of the previous month to the
/// 28th five months ahead, given the current UTC year and month; `None` where
/// a bound of the window is no valid UTC time, which happens only for years
/// outside the calendar's range.
pub fn build_sap_url(base_url: &str, year: i32, month: u32) -> (r: Option<String>)
    requires
        1 <= month <= 12,
        i32::MIN < year < i32::MAX,
    ensures
        -262142 <= year <= 262141 ==> r is Some,
        ({
            let (sy, sm) = previous_month(year as int, month as int);
            let (ey, em) = fifth_month_after(year as int, month as int);
            match (utc_seconds_of(sy, sm, 1, 0, 0, 0), utc_seconds_of(ey, em, 28, 23, 59, 59)) {
                (Some(s), Some(e)) => r matches Some(u) && u@ == with_window(base_url@, s as int, e as int),
                _ => r is None,
            }
        }),
{
    let (start_year, start_month) = if month == 1 {
        (year - 1, 12u32)
    } else {
        (year, month - 1)
    };
    let mut end_month = month + 5;
    let mut end_year = year;
    if end_month > 12 {
        end_month -= 12;
        end_year += 1;
    }
    let start = utc_seconds(start_year, start_month, 1, 0, 0, 0);
    let end = utc_seconds(end_year, end_month, 28, 23, 59, 59);
    match (start, end) {
        (Some(s), Some(e)) => {
            let mut url = string_without_window(base_url);
            let cs = chars_of(url.as_str());
            if find_char(&cs, '?').is_some() {
                url.append("&");
            } else {
                url.append("?");
            }
            url.append("start=");
            let st = i64_text(s);
            url.append(st.as_str());
            url.append("&end=");
            let et = i64_text(e);
            url.append(et.as_str());
            Some(url)
        },
        _ => None,
    }
}

} // verus!
