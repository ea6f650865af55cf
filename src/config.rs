use vstd::prelude::*;

verus! {

/// `": "` starts at index `i` of `s`.
pub open spec fn separator_at(s: Seq<u8>, i: int) -> bool {
    0 <= i && i + 1 < s.len() && s[i] == 58u8 && s[i + 1] == 32u8
}

/// `i` is the first index of `s` where `": "` starts.
pub open spec fn first_separator(s: Seq<u8>, i: int) -> bool {
    separator_at(s, i) && forall|j: int| 0 <= j < i ==> !separator_at(s, j)
}

pub open spec fn is_digit(c: u8) -> bool {
    48 <= c <= 57
}

/// The number that a string of decimal digits writes.
pub open spec fn decimal_value(s: Seq<u8>) -> nat
    decreases s.len(),
{
    if s.len() == 0 {
        0
    } else {
        decimal_value(s.drop_last()) * 10 + (s.last() - 48) as nat
    }
}

/// `s` without its spaces.
pub open spec fn without_spaces(s: Seq<u8>) -> Seq<u8> {
    s.filter(|c: u8| c != 32u8)
}

/// The pieces of `s` between commas, as `str::split(',')` cuts them: one
/// more piece than there are commas, empty pieces included.
pub open spec fn comma_fields(s: Seq<u8>) -> Seq<Seq<u8>>
    decreases s.len(),
{
    if s.len() == 0 {
        seq![Seq::<u8>::empty()]
    } else if s.last() == 44u8 {
        comma_fields(s.drop_last()).push(Seq::<u8>::empty())
    } else {
        let f = comma_fields(s.drop_last());
        f.update(f.len() - 1, f.last().push(s.last()))
    }
}

/// A prefix of a string of digits writes no larger a number than the whole.
proof fn lemma_prefix_value(s: Seq<u8>, j: int)
    requires
        0 <= j <= s.len(),
    ensures
        decimal_value(s.subrange(0, j)) <= decimal_value(s),
    decreases s.len(),
{
    if j < s.len() {
        lemma_prefix_value(s.drop_last(), j);
        assert(s.drop_last().subrange(0, j) =~= s.subrange(0, j));
    } else {
        assert(s.subrange(0, j) =~= s);
    }
}

fn copy_range(s: &[u8], lo: usize, hi: usize) -> (r: Vec<u8>)
    requires
        lo <= hi <= s@.len(),
    ensures
        r@ == s@.subrange(lo as int, hi as int),
{
    let mut r: Vec<u8> = Vec::new();
    let mut j: usize = lo;
    while j < hi
        invariant
            lo <= j <= hi,
            hi <= s@.len(),
            r@ == s@.subrange(lo as int, j as int),
        decreases hi - j,
    {
        r.push(s[j]);
        assert(s@.subrange(lo as int, j + 1) =~= s@.subrange(lo as int, j as int).push(s@[j as int]));
        j = j + 1;
    }
    r
}

/// Splits a `key: value` line of a configuration file at its first `": "`.
/// Returns `None` for a line without one.
pub fn split_entry(line: &[u8]) -> (r: Option<(Vec<u8>, Vec<u8>)>)
    ensures
        r is None <==> forall|i: int| !separator_at(line@, i),
        r matches Some((k, v)) ==> exists|i: int|
            first_separator(line@, i) && k@ == line@.subrange(0, i) && v@ == line@.subrange(
                i + 2,
                line@.len() as int,
            ),
{
    let n = line.len();
    let mut i: usize = 0;
    while i < n && i + 1 < n
        invariant
            n == line@.len(),
            i <= n,
            forall|j: int| 0 <= j < i ==> !separator_at(line@, j),
        decreases n - i,
    {
        if line[i] == 58u8 && line[i + 1] == 32u8 {
            let k = copy_range(line, 0, i);
            let v = copy_range(line, i + 2, n);
            assert(first_separator(line@, i as int));
            return Some((k, v));
        }
        i = i + 1;
    }
    assert forall|j: int| !separator_at(line@, j) by {
        if 0 <= j && j >= i {
            assert(j + 1 >= n);
        }
    }
    None
}

/// Reads a positive decimal count, as the `active_count` and
/// `archive_count` settings hold. Returns `None` unless `s` is a non-empty
/// run of digits that writes a number from 1 to `usize::MAX`.
pub fn parse_count(s: &[u8]) -> (r: Option<usize>)
    ensures
        r is Some <==> (s@.len() > 0 && (forall|i: int| 0 <= i < s@.len() ==> is_digit(s@[i]))
            && 0 < decimal_value(s@) <= usize::MAX),
        r matches Some(n) ==> n == decimal_value(s@),
{
    let len = s.len();
    if len == 0 {
        return None;
    }
    let mut i: usize = 0;
    while i < len
        invariant
            len == s@.len(),
            i <= len,
            forall|k: int| 0 <= k < i ==> is_digit(s@[k]),
        decreases len - i,
    {
        if s[i] < 48u8 || s[i] > 57u8 {
            return None;
        }
        i = i + 1;
    }
    let mut n: usize = 0;
    let mut i: usize = 0;
    assert(s@.subrange(0, 0) =~= Seq::<u8>::empty());
    while i < len
        invariant
            len == s@.len(),
            i <= len,
            forall|k: int| 0 <= k < len ==> is_digit(s@[k]),
            n == decimal_value(s@.subrange(0, i as int)),
        decreases len - i,
    {
        let d = (s[i] - 48u8) as usize;
        assert(s@.subrange(0, i + 1).drop_last() =~= s@.subrange(0, i as int));
        let next = match n.checked_mul(10) {
            None => None,
            Some(m) => m.checked_add(d),
        };
        match next {
            None => {
                proof {
                    lemma_prefix_value(s@, i + 1);
                }
                return None;
            },
            Some(m) => {
                n = m;
            },
        }
        i = i + 1;
    }
    assert(s@.subrange(0, len as int) =~= s@);
    if n == 0 {
        return None;
    }
    Some(n)
}

/// The board names of the site's `boards` setting: the value without its
/// spaces, cut at each comma.
pub fn board_names(value: &[u8]) -> (r: Vec<Vec<u8>>)
    ensures
        r@.len() == comma_fields(without_spaces(value@)).len(),
        forall|i: int| 0 <= i < r@.len() ==> #[trigger] r@[i]@ == comma_fields(
            without_spaces(value@),
        )[i],
{
    let mut kept: Vec<u8> = Vec::new();
    let mut i: usize = 0;
    while i < value.len()
        invariant
            i <= value@.len(),
            kept@ == without_spaces(value@.subrange(0, i as int)),
        decreases value@.len() - i,
    {
        let c = value[i];
        proof {
            reveal(Seq::filter);
        }
        assert(value@.subrange(0, i + 1).drop_last() =~= value@.subrange(0, i as int));
        if c != 32u8 {
            kept.push(c);
        }
        i = i + 1;
    }
    assert(value@.subrange(0, value@.len() as int) =~= value@);
    let mut r: Vec<Vec<u8>> = Vec::new();
    r.push(Vec::new());
    let mut i: usize = 0;
    assert(kept@.subrange(0, 0) =~= Seq::<u8>::empty());
    while i < kept.len()
        invariant
            i <= kept@.len(),
            r@.len() == comma_fields(kept@.subrange(0, i as int)).len(),
            r@.len() >= 1,
            forall|k: int|
                0 <= k < r@.len() ==> #[trigger] r@[k]@ == comma_fields(
                    kept@.subrange(0, i as int),
                )[k],
        decreases kept@.len() - i,
    {
        let c = kept[i];
        let ghost pre = kept@.subrange(0, i as int);
        assert(kept@.subrange(0, i + 1).drop_last() =~= pre);
        if c == 44u8 {
            r.push(Vec::new());
        } else {
            let mut last = r.pop().unwrap();
            last.push(c);
            r.push(last);
        }
        i = i + 1;
    }
    assert(kept@.subrange(0, kept@.len() as int) =~= kept@);
    r
}

} // verus!
