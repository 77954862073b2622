//! The DPDFNet model's metadata: comma-separated lists split into their
//! fields, and sizes read as decimal numbers.

use vstd::prelude::*;

verus! {

/// The fields of `s` between occurrences of `sep`: one more field than
/// there are separators, empty fields included.
pub open spec fn split_spec(s: Seq<u8>, sep: u8) -> Seq<Seq<u8>>
    decreases s.len(),
{
    if s.len() == 0 {
        seq![Seq::empty()]
    } else {
        let p = split_spec(s.drop_last(), sep);
        if s.last() == sep {
            p.push(Seq::empty())
        } else {
            p.update(p.len() - 1, p.last().push(s.last()))
        }
    }
}

/// The fields joined back with `sep` between them.
pub open spec fn join_spec(parts: Seq<Seq<u8>>, sep: u8) -> Seq<u8>
    decreases parts.len(),
{
    if parts.len() == 0 {
        Seq::empty()
    } else if parts.len() == 1 {
        parts[0]
    } else {
        join_spec(parts.drop_last(), sep).push(sep) + parts.last()
    }
}

/// Splits `s` at each `sep` into its fields, in order.
pub fn split_fields(s: &[u8], sep: u8) -> (r: Vec<Vec<u8>>)
    ensures
        r@.map_values(|v: Vec<u8>| v@) == split_spec(s@, sep),
{
    let mut done: Vec<Vec<u8>> = Vec::new();
    let mut cur: Vec<u8> = Vec::new();
    let n = s.len();
    let mut i: usize = 0;
    assert(s@.take(0) =~= Seq::<u8>::empty());
    assert(done@.map_values(|v: Vec<u8>| v@).push(cur@) =~= split_spec(s@.take(0), sep));
    while i < n
        invariant
            n == s.len(),
            i <= n,
            done@.map_values(|v: Vec<u8>| v@).push(cur@) == split_spec(s@.take(i as int), sep),
        decreases n - i,
    {
        let c = s[i];
        let ghost before = done@.map_values(|v: Vec<u8>| v@);
        assert(s@.take(i + 1).drop_last() =~= s@.take(i as int));
        assert(s@.take(i + 1).last() == c);
        if c == sep {
            let mut fresh: Vec<u8> = Vec::new();
            std::mem::swap(&mut fresh, &mut cur);
            done.push(fresh);
            assert(done@.map_values(|v: Vec<u8>| v@) =~= before.push(fresh@));
            assert(done@.map_values(|v: Vec<u8>| v@).push(cur@) =~= split_spec(s@.take(i + 1), sep));
        } else {
            let ghost old_cur = cur@;
            cur.push(c);
            assert(before.push(cur@) =~= before.push(old_cur).update(before.len() as int, old_cur.push(c)));
        }
        i = i + 1;
    }
    assert(s@.take(n as int) =~= s@);
    let ghost before = done@.map_values(|v: Vec<u8>| v@);
    done.push(cur);
    assert(done@.map_values(|v: Vec<u8>| v@) =~= before.push(cur@));
    done
}

proof fn lemma_split_nonempty(s: Seq<u8>, sep: u8)
    ensures
        split_spec(s, sep).len() >= 1,
    decreases s.len(),
{
    if s.len() > 0 {
        lemma_split_nonempty(s.drop_last(), sep);
    }
}

proof fn lemma_join_extend_last(p: Seq<Seq<u8>>, sep: u8, c: u8)
    requires
        p.len() >= 1,
    ensures
        join_spec(p.update(p.len() - 1, p.last().push(c)), sep) == join_spec(p, sep).push(c),
{
    let q = p.update(p.len() - 1, p.last().push(c));
    if p.len() > 1 {
        assert(q.drop_last() =~= p.drop_last());
        assert(join_spec(p.drop_last(), sep).push(sep) + p.last().push(c) =~= (join_spec(p.drop_last(), sep).push(sep) + p.last()).push(c));
    }
}

/// Splitting loses nothing: joining the fields with the separator gives
/// back the text, and no field holds a separator.
pub proof fn lemma_split_join(s: Seq<u8>, sep: u8)
    ensures
        join_spec(split_spec(s, sep), sep) == s,
        forall|k: int| 0 <= k < split_spec(s, sep).len() ==> !(#[trigger] split_spec(s, sep)[k]).contains(sep),
    decreases s.len(),
{
    if s.len() == 0 {
        assert(join_spec(split_spec(s, sep), sep) =~= s);
        assert(!Seq::<u8>::empty().contains(sep));
    } else {
        let prev = s.drop_last();
        lemma_split_join(prev, sep);
        lemma_split_nonempty(prev, sep);
        let p = split_spec(prev, sep);
        assert(prev.push(s.last()) =~= s);
        if s.last() == sep {
            let q = p.push(Seq::empty());
            assert(q.drop_last() =~= p);
            assert(join_spec(q, sep) =~= join_spec(p, sep).push(sep) + Seq::<u8>::empty());
            assert(join_spec(q, sep) =~= s);
            assert forall|k: int| 0 <= k < q.len() implies !(#[trigger] q[k]).contains(sep) by {
                if k < p.len() {
                    assert(q[k] == p[k]);
                } else {
                    assert(!Seq::<u8>::empty().contains(sep));
                }
            }
        } else {
            let q = p.update(p.len() - 1, p.last().push(s.last()));
            lemma_join_extend_last(p, sep, s.last());
            assert forall|k: int| 0 <= k < q.len() implies !(#[trigger] q[k]).contains(sep) by {
                if k < p.len() - 1 {
                    assert(q[k] == p[k]);
                } else {
                    let f = p.last().push(s.last());
                    assert(!p[p.len() - 1].contains(sep));
                    if f.contains(sep) {
                        let j = choose|j: int| 0 <= j < f.len() && f[j] == sep;
                        if j < f.len() - 1 {
                            assert(p.last()[j] == sep);
                        }
                    }
                }
            }
        }
    }
}

/// The value of a string of decimal digits.
pub open spec fn digits_value(d: Seq<u8>) -> int
    decreases d.len(),
{
    if d.len() == 0 {
        0
    } else {
        10 * digits_value(d.drop_last()) + (d.last() - 48)
    }
}

/// Every byte is an ASCII digit.
pub open spec fn all_digits(d: Seq<u8>) -> bool {
    forall|i: int| 0 <= i < d.len() ==> 48 <= #[trigger] d[i] <= 57
}

/// The digits of an unsigned number: the text after one leading `+`, if any.
pub open spec fn unsigned_digits(s: Seq<u8>) -> Seq<u8> {
    if s.len() > 0 && s[0] == 43 { s.drop_first() } else { s }
}

/// The `usize` a text denotes in decimal, as Rust's `str::parse::<usize>`
/// reads it: an optional `+`, then one or more digits and nothing else,
/// of a value that fits.
pub open spec fn parse_usize_spec(s: Seq<u8>) -> Option<usize> {
    let d = unsigned_digits(s);
    if d.len() > 0 && all_digits(d) && digits_value(d) <= usize::MAX {
        Some(digits_value(d) as usize)
    } else {
        None
    }
}

proof fn lemma_digits_value_grows(d: Seq<u8>, j: int)
    requires
        all_digits(d),
        0 <= j <= d.len(),
    ensures
        0 <= digits_value(d.take(j)) <= digits_value(d),
    decreases d.len(),
{
    if d.len() > 0 {
        let p = d.drop_last();
        assert(all_digits(p)) by {
            assert forall|i: int| 0 <= i < p.len() implies 48 <= #[trigger] p[i] <= 57 by {
                assert(p[i] == d[i]);
            }
        }
        if j == d.len() {
            assert(d.take(j) =~= d);
            lemma_digits_value_grows(p, p.len() as int);
            assert(p.take(p.len() as int) =~= p);
        } else {
            lemma_digits_value_grows(p, j);
            lemma_digits_value_grows(p, p.len() as int);
            assert(p.take(j) =~= d.take(j));
            assert(p.take(p.len() as int) =~= p);
            assert(48 <= d.last() <= 57);
        }
    } else {
        assert(d.take(j) =~= d);
    }
}

/// Reads a size from the model metadata: the decimal number the text
/// denotes, or `None` when it is not one or does not fit in a `usize`.
pub fn parse_usize(s: &[u8]) -> (r: Option<usize>)
    ensures
        r == parse_usize_spec(s@),
{
    let start: usize = if s.len() > 0 && s[0] == 43u8 { 1 } else { 0 };
    let ghost d = unsigned_digits(s@);
    assert(d =~= s@.skip(start as int));
    if start >= s.len() {
        return None;
    }
    let mut acc: usize = 0;
    let mut i: usize = start;
    assert(d.take(0) =~= Seq::<u8>::empty());
    while i < s.len()
        invariant
            start <= i <= s.len(),
            d == s@.skip(start as int),
            d == unsigned_digits(s@),
            acc as int == digits_value(d.take(i - start)),
            all_digits(d.take(i - start)),
        decreases s.len() - i,
    {
        let c = s[i];
        assert(d[i - start] == c);
        if c < 48u8 || c > 57u8 {
            proof {
                assert(!all_digits(d)) by {
                    assert(d[i - start] == c);
                }
            }
            return None;
        }
        let ghost prefix = d.take(i - start + 1);
        proof {
            assert(prefix.drop_last() =~= d.take(i - start));
            assert(prefix.last() == c);
            assert(digits_value(prefix) == 10 * acc + (c - 48));
            assert(all_digits(prefix)) by {
                assert forall|k: int| 0 <= k < prefix.len() implies 48 <= #[trigger] prefix[k] <= 57 by {
                    if k < prefix.len() - 1 {
                        assert(prefix[k] == d.take(i - start)[k]);
                    }
                }
            }
        }
        let next = match acc.checked_mul(10) {
            Some(m) => m.checked_add((c - 48u8) as usize),
            None => None,
        };
        match next {
            Some(v) => {
                acc = v;
            },
            None => {
                proof {
                    if all_digits(d) {
                        lemma_digits_value_grows(d, i - start + 1);
                    }
                }
                return None;
            },
        }
        i = i + 1;
    }
    proof {
        assert(d.take(i - start) =~= d);
    }
    Some(acc)
}

} // verus!
