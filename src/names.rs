//! Text helpers for host names, service ids and service types.
use vstd::prelude::*;

verus! {

/// `s` with every trailing `'.'` removed.
pub open spec fn trim_end_dots(s: Seq<char>) -> Seq<char>
    decreases s.len(),
{
    if s.len() > 0 && s.last() == '.' {
        trim_end_dots(s.drop_last())
    } else {
        s
    }
}

/// `s` with every leading `'.'` removed.
pub open spec fn trim_start_dots(s: Seq<char>) -> Seq<char>
    decreases s.len(),
{
    if s.len() > 0 && s[0] == '.' {
        trim_start_dots(s.drop_first())
    } else {
        s
    }
}

/// `"._"` starts at index `i` of `s`.
pub open spec fn dot_underscore_at(s: Seq<char>, i: int) -> bool {
    0 <= i && i + 1 < s.len() && s[i] == '.' && s[i + 1] == '_'
}

/// The first index at or after `from` where `"._"` starts, or -1.
pub open spec fn first_dot_underscore(s: Seq<char>, from: int) -> int
    decreases s.len() - from,
{
    if from < 0 || from + 1 >= s.len() {
        -1
    } else if dot_underscore_at(s, from) {
        from
    } else {
        first_dot_underscore(s, from + 1)
    }
}

/// The service type named by a service id: what follows the first `"."`
/// that is followed by `'_'`, or the whole id when there is none.
pub open spec fn service_type_of(s: Seq<char>) -> Seq<char> {
    let p = first_dot_underscore(s, 0);
    if p >= 0 {
        s.subrange(p + 1, s.len() as int)
    } else {
        s
    }
}

/// `s` ends with `suffix`.
pub open spec fn ends_with(s: Seq<char>, suffix: Seq<char>) -> bool {
    suffix.len() <= s.len() && s.subrange(s.len() - suffix.len(), s.len() as int) == suffix
}

/// The labels joined by `'.'`.
pub open spec fn join_dots(ls: Seq<Seq<char>>) -> Seq<char>
    decreases ls.len(),
{
    if ls.len() == 0 {
        Seq::empty()
    } else if ls.len() == 1 {
        ls[0]
    } else {
        join_dots(ls.drop_last()) + seq!['.'] + ls.last()
    }
}

/// `s[a..b]` as a one-element sequence, or nothing when it is empty.
pub open spec fn piece(s: Seq<char>, a: int, b: int) -> Seq<Seq<char>> {
    if a < b {
        seq![s.subrange(a, b)]
    } else {
        Seq::empty()
    }
}

/// The non-empty pieces of `s[start..]` between dots, scanning from `i`
/// (the current piece began at `start`).
pub open spec fn split_from(s: Seq<char>, start: int, i: int) -> Seq<Seq<char>>
    decreases s.len() - i,
{
    if i >= s.len() {
        piece(s, start, s.len() as int)
    } else if s[i] == '.' {
        piece(s, start, i) + split_from(s, i + 1, i + 1)
    } else {
        split_from(s, start, i + 1)
    }
}

/// The labels of a dotted name: the non-empty pieces between dots.
pub open spec fn split_dots(s: Seq<char>) -> Seq<Seq<char>> {
    split_from(s, 0, 0)
}

/// The views of a sequence of strings.
pub open spec fn strings_view(v: Seq<String>) -> Seq<Seq<char>> {
    v.map_values(|l: String| l@)
}

/// Removes every trailing `'.'`.
pub fn trim_trailing_dot(s: &str) -> (r: String)
    ensures
        r@ == trim_end_dots(s@),
{
    let mut end: usize = s.unicode_len();
    assert(s@.subrange(0, end as int) =~= s@);
    while end > 0 && s.get_char(end - 1) == '.'
        invariant
            end <= s@.len(),
            trim_end_dots(s@.subrange(0, end as int)) == trim_end_dots(s@),
        decreases end,
    {
        assert(s@.subrange(0, end as int).drop_last() =~= s@.subrange(0, end - 1));
        end -= 1;
    }
    String::from_str(s.substring_char(0, end))
}

/// Removes every leading `'.'`.
pub fn trim_leading_dot(s: &str) -> (r: String)
    ensures
        r@ == trim_start_dots(s@),
{
    let n: usize = s.unicode_len();
    let mut start: usize = 0;
    assert(s@.subrange(0, n as int) =~= s@);
    while start < n && s.get_char(start) == '.'
        invariant
            start <= n,
            n == s@.len(),
            trim_start_dots(s@.subrange(start as int, n as int)) == trim_start_dots(s@),
        decreases n - start,
    {
        assert(s@.subrange(start as int, n as int).drop_first() =~= s@.subrange(
            start + 1,
            n as int,
        ));
        start += 1;
    }
    String::from_str(s.substring_char(start, n))
}

/// Extracts the service type from a service id: the text after the first
/// `"."` that is followed by `'_'`; the whole id when there is none.
/// `"MyLaptop.local._myDefault._tcp.local."` gives `"_myDefault._tcp.local."`.
pub fn extract_service_type(srv_id: &str) -> (r: String)
    ensures
        r@ == service_type_of(srv_id@),
{
    let n: usize = srv_id.unicode_len();
    let mut i: usize = 0;
    while i < n && i + 1 < n
        invariant
            n == srv_id@.len(),
            i <= n,
            first_dot_underscore(srv_id@, i as int) == first_dot_underscore(srv_id@, 0),
        decreases n - i,
    {
        if srv_id.get_char(i) == '.' && srv_id.get_char(i + 1) == '_' {
            return String::from_str(srv_id.substring_char(i + 1, n));
        }
        i += 1;
    }
    String::from_str(srv_id)
}

/// Whether `s` ends with `suffix`, character by character.
pub fn str_ends_with(s: &str, suffix: &str) -> (r: bool)
    ensures
        r == ends_with(s@, suffix@),
{
    let n: usize = s.unicode_len();
    let m: usize = suffix.unicode_len();
    if m > n {
        return false;
    }
    let off: usize = n - m;
    let mut j: usize = 0;
    while j < m
        invariant
            n == s@.len(),
            m == suffix@.len(),
            off == n - m,
            j <= m,
            forall|k: int| 0 <= k < j ==> s@[off + k] == suffix@[k],
        decreases m - j,
    {
        if s.get_char(off + j) != suffix.get_char(j) {
            assert(s@.subrange(off as int, n as int)[j as int] != suffix@[j as int]);
            return false;
        }
        j += 1;
    }
    assert(s@.subrange(off as int, n as int) =~= suffix@);
    true
}

/// Joins the labels with `'.'`.
pub fn join_labels(labels: &Vec<String>) -> (r: String)
    ensures
        r@ == join_dots(strings_view(labels@)),
{
    let mut r = String::new();
    let mut i: usize = 0;
    while i < labels.len()
        invariant
            i <= labels.len(),
            r@ == join_dots(strings_view(labels@).subrange(0, i as int)),
        decreases labels.len() - i,
    {
        let ghost before = strings_view(labels@).subrange(0, i as int);
        let ghost after = strings_view(labels@).subrange(0, i + 1);
        assert(after.drop_last() =~= before);
        if i > 0 {
            let dot = ".";
            proof {
                reveal_strlit(".");
            }
            r.append(dot);
        }
        r.append(labels[i].as_str());
        proof {
            if i == 0 {
                assert(r@ =~= after[0]);
            } else {
                assert(r@ =~= join_dots(before) + seq!['.'] + after.last());
            }
        }
        i += 1;
    }
    assert(strings_view(labels@).subrange(0, i as int) =~= strings_view(labels@));
    r
}

/// Splits a dotted name into its non-empty labels.
pub fn split_labels(s: &str) -> (r: Vec<String>)
    ensures
        strings_view(r@) == split_dots(s@),
{
    let n: usize = s.unicode_len();
    let mut out: Vec<String> = Vec::new();
    let mut start: usize = 0;
    let mut i: usize = 0;
    while i < n
        invariant
            n == s@.len(),
            start <= i <= n,
            strings_view(out@) + split_from(s@, start as int, i as int) == split_dots(s@),
        decreases n - i,
    {
        if s.get_char(i) == '.' {
            let ghost old_out = strings_view(out@);
            if start < i {
                out.push(String::from_str(s.substring_char(start, i)));
                assert(strings_view(out@) =~= old_out + piece(s@, start as int, i as int));
            } else {
                assert(strings_view(out@) =~= old_out + piece(s@, start as int, i as int));
            }
            assert(strings_view(out@) + split_from(s@, i + 1, i + 1) =~= old_out + split_from(
                s@,
                start as int,
                i as int,
            ));
            start = i + 1;
        }
        i += 1;
    }
    let ghost old_out = strings_view(out@);
    if start < n {
        out.push(String::from_str(s.substring_char(start, n)));
    }
    assert(strings_view(out@) =~= old_out + split_from(s@, start as int, n as int));
    out
}

} // verus!
