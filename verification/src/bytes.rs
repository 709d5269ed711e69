//! Byte-sequence utilities shared by the router and the form decoder:
//! splitting on a separator, finding a byte, prefix tests and equality.
//!
//! All of them are specified against plain `Seq<u8>` models, so the
//! modules above can state their own contracts in terms of the same
//! mathematical splits.

use vstd::prelude::*;

verus! {

/// The pieces of `s` cut at every occurrence of `sep`.
/// Always at least one piece; `n` separators give `n + 1` pieces.
pub open spec fn spec_split(s: Seq<u8>, sep: u8) -> Seq<Seq<u8>>
    decreases s.len(),
{
    if s.len() == 0 {
        seq![Seq::<u8>::empty()]
    } else if s[0] == sep {
        seq![Seq::<u8>::empty()] + spec_split(s.skip(1), sep)
    } else {
        let rest = spec_split(s.skip(1), sep);
        seq![seq![s[0]] + rest[0]] + rest.skip(1)
    }
}

pub proof fn lemma_split_nonempty(s: Seq<u8>, sep: u8)
    ensures
        spec_split(s, sep).len() >= 1,
    decreases s.len(),
{
    if s.len() != 0 && s[0] != sep {
        lemma_split_nonempty(s.skip(1), sep);
    }
}

/// Index of the first occurrence of `b` in `s`, or `-1` if there is none.
pub open spec fn spec_find(s: Seq<u8>, b: u8) -> int
    decreases s.len(),
{
    if s.len() == 0 {
        -1
    } else if s[0] == b {
        0
    } else {
        let r = spec_find(s.skip(1), b);
        if r < 0 {
            -1
        } else {
            r + 1
        }
    }
}

pub proof fn lemma_find_range(s: Seq<u8>, b: u8)
    ensures
        spec_find(s, b) >= 0 ==> spec_find(s, b) < s.len() && s[spec_find(s, b)] == b,
        spec_find(s, b) < 0 ==> forall|i: int| 0 <= i < s.len() ==> s[i] != b,
    decreases s.len(),
{
    if s.len() > 0 && s[0] != b {
        lemma_find_range(s.skip(1), b);
        if spec_find(s, b) < 0 {
            assert forall|i: int| 0 <= i < s.len() implies s[i] != b by {
                if i > 0 {
                    assert(s.skip(1)[i - 1] == s[i]);
                }
            }
        }
    }
}

/// The views of a sequence of byte vectors.
pub open spec fn views_of(v: Seq<Vec<u8>>) -> Seq<Seq<u8>> {
    Seq::new(v.len(), |i: int| v[i]@)
}

/// True when the vectors hold the same bytes.
pub fn bytes_eq(a: &Vec<u8>, b: &Vec<u8>) -> (r: bool)
    ensures
        r == (a@ == b@),
{
    let r = a == b;
    proof {
        if r {
            assert(a@ =~= b@);
        }
    }
    r
}

/// True when `s` begins with the bytes of `p`.
pub fn starts_with(s: &Vec<u8>, p: &Vec<u8>) -> (r: bool)
    ensures
        r == (s@.len() >= p@.len() && s@.take(p@.len() as int) == p@),
{
    if s.len() < p.len() {
        return false;
    }
    let mut i: usize = 0;
    while i < p.len()
        invariant
            i <= p.len() <= s.len(),
            forall|j: int| 0 <= j < i ==> s@[j] == p@[j],
        decreases p.len() - i,
    {
        if s[i] != p[i] {
            proof {
                assert(s@.take(p@.len() as int)[i as int] != p@[i as int]);
            }
            return false;
        }
        i = i + 1;
    }
    proof {
        assert(s@.take(p@.len() as int) =~= p@);
    }
    true
}

/// Index of the first occurrence of `b` in `s`, if any.
pub fn find_byte(s: &Vec<u8>, b: u8) -> (r: Option<usize>)
    ensures
        match r {
            Some(i) => spec_find(s@, b) == i as int,
            None => spec_find(s@, b) < 0,
        },
{
    let mut i: usize = 0;
    while i < s.len()
        invariant
            i <= s.len(),
            spec_find(s@, b) >= 0 ==> spec_find(s@, b) >= i as int,
            spec_find(s@, b) < 0 ==> forall|j: int| 0 <= j < i ==> s@[j] != b,
            forall|j: int| 0 <= j < i ==> s@[j] != b,
        decreases s.len() - i,
    {
        if s[i] == b {
            proof {
                lemma_find_skip_prefix(s@, b, i as int);
            }
            return Some(i);
        }
        proof {
            lemma_find_skip_prefix(s@, b, i as int);
        }
        i = i + 1;
    }
    proof {
        lemma_find_range(s@, b);
    }
    None
}

/// Relates the first occurrence to a scan that has ruled out a prefix:
/// if the bytes before `i` are not `b`, the first occurrence is at or
/// after `i`, and it is exactly `i` when `s[i] == b`.
proof fn lemma_find_skip_prefix(s: Seq<u8>, b: u8, i: int)
    requires
        0 <= i < s.len(),
        forall|j: int| 0 <= j < i ==> s[j] != b,
    ensures
        s[i] == b ==> spec_find(s, b) == i,
        s[i] != b ==> (spec_find(s, b) >= 0 ==> spec_find(s, b) > i),
        s[i] != b ==> ((forall|j: int| 0 <= j < i + 1 ==> s[j] != b) ==> (spec_find(s, b) >= 0
            ==> spec_find(s, b) >= i + 1)),
    decreases i,
{
    if i > 0 {
        lemma_find_skip_prefix(s.skip(1), b, i - 1);
        assert(forall|j: int| 0 <= j < i - 1 ==> s.skip(1)[j] == s[j + 1]);
    }
}

/// Splitting `s` at every `sep`, starting at offset `i`.
fn split_from(s: &Vec<u8>, sep: u8, i: usize) -> (r: Vec<Vec<u8>>)
    requires
        i <= s.len(),
    ensures
        views_of(r@) == spec_split(s@.skip(i as int), sep),
    decreases s.len() - i,
{
    if i == s.len() {
        let mut r: Vec<Vec<u8>> = Vec::new();
        r.push(Vec::new());
        proof {
            assert(s@.skip(i as int) =~= Seq::<u8>::empty());
            assert(views_of(r@) =~= seq![Seq::<u8>::empty()]);
        }
        r
    } else if s[i] == sep {
        let mut rest = split_from(s, sep, i + 1);
        let ghost prev = rest@;
        rest.insert(0, Vec::new());
        proof {
            assert(s@.skip(i as int).skip(1) =~= s@.skip(i as int + 1));
            assert(views_of(rest@) =~= seq![Seq::<u8>::empty()] + views_of(prev));
        }
        rest
    } else {
        let mut rest = split_from(s, sep, i + 1);
        proof {
            lemma_split_nonempty(s@.skip(i as int + 1), sep);
        }
        let ghost prev = rest@;
        let mut first = rest.remove(0);
        let ghost first0 = first@;
        first.insert(0, s[i]);
        rest.insert(0, first);
        proof {
            let tail = s@.skip(i as int + 1);
            assert(s@.skip(i as int).skip(1) =~= tail);
            assert(s@.skip(i as int)[0] == s@[i as int]);
            let sp = spec_split(tail, sep);
            assert(first0 == sp[0]);
            assert(first@ =~= seq![s@[i as int]] + sp[0]);
            assert(views_of(rest@) =~= seq![seq![s@[i as int]] + sp[0]] + sp.skip(1));
        }
        rest
    }
}

/// The pieces of `s` cut at every occurrence of `sep`.
pub fn split(s: &Vec<u8>, sep: u8) -> (r: Vec<Vec<u8>>)
    ensures
        views_of(r@) == spec_split(s@, sep),
        r@.len() >= 1,
{
    let r = split_from(s, sep, 0);
    proof {
        assert(s@.skip(0) =~= s@);
        lemma_split_nonempty(s@, sep);
        assert(r@.len() == views_of(r@).len());
    }
    r
}

/// A copy of the first `to` bytes of `s`.
pub fn head_to(s: &Vec<u8>, to: usize) -> (r: Vec<u8>)
    requires
        to <= s@.len(),
    ensures
        r@ == s@.take(to as int),
{
    let mut r: Vec<u8> = Vec::new();
    let mut i: usize = 0;
    while i < to
        invariant
            i <= to <= s@.len(),
            r@ =~= s@.take(i as int),
        decreases to - i,
    {
        r.push(s[i]);
        i = i + 1;
    }
    r
}

/// A copy of the bytes of `s` from `from` to its end.
pub fn tail_from(s: &Vec<u8>, from: usize) -> (r: Vec<u8>)
    requires
        from <= s@.len(),
    ensures
        r@ == s@.skip(from as int),
{
    let mut r: Vec<u8> = Vec::new();
    let mut i: usize = from;
    while i < s.len()
        invariant
            from <= i <= s.len(),
            r@ =~= s@.subrange(from as int, i as int),
        decreases s.len() - i,
    {
        r.push(s[i]);
        i = i + 1;
    }
    proof {
        assert(r@ =~= s@.skip(from as int));
    }
    r
}

/// Appends all bytes of `src` to `dst`.
pub fn append_bytes(dst: &mut Vec<u8>, src: &Vec<u8>)
    ensures
        final(dst)@ == old(dst)@ + src@,
{
    let mut i: usize = 0;
    while i < src.len()
        invariant
            i <= src.len(),
            dst@ =~= old(dst)@ + src@.take(i as int),
        decreases src.len() - i,
    {
        dst.push(src[i]);
        i = i + 1;
    }
    proof {
        assert(old(dst)@ + src@.take(src@.len() as int) =~= old(dst)@ + src@);
    }
}

} // verus!
