//! Byte-string building blocks of the wire format: splitting on a separator
//! byte, joining with one, and trimming blanks.
//!
//! Every message of the protocol is ASCII text in one datagram. The functions
//! here work on raw bytes, so no input can make them fail: bytes that are not
//! ASCII are simply bytes that match no separator.

use vstd::prelude::*;
use vstd::slice::slice_subrange;

verus! {

/// The position of the first `sep` in `s`, or `s.len()` when there is none.
pub open spec fn first_index(s: Seq<u8>, sep: u8) -> int
    decreases s.len(),
{
    if s.len() == 0 || s[0] == sep {
        0
    } else {
        1 + first_index(s.skip(1), sep)
    }
}

/// The fields of `s` between occurrences of `sep`. There is always at least
/// one field; a text without `sep` is its own single field, and `n`
/// separators give `n + 1` fields, some of which may be empty.
pub open spec fn split(s: Seq<u8>, sep: u8) -> Seq<Seq<u8>>
    decreases s.len(),
{
    let k = first_index(s, sep);
    if 0 <= k < s.len() {
        seq![s.take(k)] + split(s.skip(k + 1), sep)
    } else {
        seq![s]
    }
}

/// The parts written one after another with one `sep` between neighbours.
pub open spec fn join(parts: Seq<Seq<u8>>, sep: u8) -> Seq<u8>
    decreases parts.len(),
{
    if parts.len() == 0 {
        Seq::empty()
    } else if parts.len() == 1 {
        parts[0]
    } else {
        join(parts.drop_last(), sep).push(sep) + parts.last()
    }
}

/// No byte of `s` is `sep`.
pub open spec fn free_of(s: Seq<u8>, sep: u8) -> bool {
    forall|i: int| 0 <= i < s.len() ==> s[i] != sep
}

/// Every part is free of `sep`.
pub open spec fn all_free_of(parts: Seq<Seq<u8>>, sep: u8) -> bool {
    forall|i: int| 0 <= i < parts.len() ==> free_of(#[trigger] parts[i], sep)
}

/// Space, tab, line feed, vertical tab, form feed and carriage return.
pub open spec fn is_blank(b: u8) -> bool {
    b == 32 || (9 <= b && b <= 13)
}

/// `s` without its leading blanks.
pub open spec fn trim_start(s: Seq<u8>) -> Seq<u8>
    decreases s.len(),
{
    if s.len() > 0 && is_blank(s[0]) {
        trim_start(s.skip(1))
    } else {
        s
    }
}

/// `s` without its trailing blanks.
pub open spec fn trim_end(s: Seq<u8>) -> Seq<u8>
    decreases s.len(),
{
    if s.len() > 0 && is_blank(s.last()) {
        trim_end(s.drop_last())
    } else {
        s
    }
}

/// `s` without the blanks at either end.
pub open spec fn trim(s: Seq<u8>) -> Seq<u8> {
    trim_end(trim_start(s))
}

/// `first_index` points at the first separator: it lies within `0..=len`,
/// nothing before it is a separator, and unless it is `len` the byte there
/// is one.
pub proof fn lemma_first_index(s: Seq<u8>, sep: u8)
    ensures
        0 <= first_index(s, sep) <= s.len(),
        forall|j: int| 0 <= j < first_index(s, sep) ==> s[j] != sep,
        first_index(s, sep) < s.len() ==> s[first_index(s, sep)] == sep,
    decreases s.len(),
{
    if s.len() == 0 || s[0] == sep {
    } else {
        let rest = s.skip(1);
        lemma_first_index(rest, sep);
        assert forall|j: int| 0 <= j < first_index(s, sep) implies s[j] != sep by {
            if j > 0 {
                assert(rest[j - 1] == s[j]);
            }
        }
        if first_index(rest, sep) < rest.len() {
            assert(rest[first_index(rest, sep)] == s[first_index(rest, sep) + 1]);
        }
    }
}

/// A position that has no separator before it, and either is the end of the
/// text or holds a separator, is the one `first_index` gives.
pub proof fn lemma_first_index_is(s: Seq<u8>, sep: u8, k: int)
    requires
        0 <= k <= s.len(),
        forall|j: int| 0 <= j < k ==> s[j] != sep,
        k < s.len() ==> s[k] == sep,
    ensures
        first_index(s, sep) == k,
{
    lemma_first_index(s, sep);
}

/// A text without separator is a single field.
pub proof fn lemma_split_single(s: Seq<u8>, sep: u8)
    requires
        free_of(s, sep),
    ensures
        split(s, sep) == seq![s],
{
    lemma_first_index_is(s, sep, s.len() as int);
}

/// A separator-free head, a separator and a tail split into the head followed
/// by the fields of the tail.
pub proof fn lemma_split_head(head: Seq<u8>, tail: Seq<u8>, sep: u8)
    requires
        free_of(head, sep),
    ensures
        split(head.push(sep) + tail, sep) == seq![head] + split(tail, sep),
{
    let s = head.push(sep) + tail;
    let k = head.len() as int;
    assert(s[k] == sep);
    assert forall|j: int| 0 <= j < k implies s[j] != sep by {
        assert(s[j] == head[j]);
    }
    lemma_first_index_is(s, sep, k);
    assert(s.take(k) =~= head);
    assert(s.skip(k + 1) =~= tail);
}

/// Joining at least two parts puts the first part, a separator and the join
/// of the others one after another.
pub proof fn lemma_join_front(parts: Seq<Seq<u8>>, sep: u8)
    requires
        parts.len() >= 2,
    ensures
        join(parts, sep) == parts[0].push(sep) + join(parts.skip(1), sep),
    decreases parts.len(),
{
    let rest = parts.skip(1);
    if parts.len() == 2 {
        assert(parts.drop_last() =~= seq![parts[0]]);
        assert(rest =~= seq![parts[1]]);
        assert(join(parts.drop_last(), sep) == parts[0]);
        assert(join(rest, sep) == parts[1]);
    } else {
        let init = parts.drop_last();
        lemma_join_front(init, sep);
        assert(init.skip(1) =~= rest.drop_last());
        assert(rest.last() == parts.last());
        assert(init[0] == parts[0]);
        assert(join(parts, sep) =~= parts[0].push(sep) + (join(rest.drop_last(), sep).push(sep)
            + rest.last()));
    }
}

/// Splitting undoes joining, as long as no part holds the separator and
/// there is at least one part.
pub proof fn lemma_split_join(parts: Seq<Seq<u8>>, sep: u8)
    requires
        parts.len() >= 1,
        all_free_of(parts, sep),
    ensures
        split(join(parts, sep), sep) == parts,
    decreases parts.len(),
{
    if parts.len() == 1 {
        lemma_split_single(parts[0], sep);
        assert(seq![parts[0]] =~= parts);
    } else {
        let rest = parts.skip(1);
        lemma_join_front(parts, sep);
        assert forall|i: int| 0 <= i < rest.len() implies free_of(#[trigger] rest[i], sep) by {
            assert(rest[i] == parts[i + 1]);
        }
        lemma_split_join(rest, sep);
        lemma_split_head(parts[0], join(rest, sep), sep);
        assert(seq![parts[0]] + rest =~= parts);
    }
}

/// Adding one more part to a non-empty list appends a separator and the part.
pub proof fn lemma_join_push(parts: Seq<Seq<u8>>, part: Seq<u8>, sep: u8)
    ensures
        join(parts.push(part), sep) == if parts.len() == 0 {
            part
        } else {
            join(parts, sep).push(sep) + part
        },
{
    assert(parts.push(part).drop_last() =~= parts);
}

/// A join of separator-free parts holds exactly `len - 1` separators, so a
/// join by another byte of parts free of `sep` is itself free of `sep`.
pub proof fn lemma_join_free_of(parts: Seq<Seq<u8>>, glue: u8, sep: u8)
    requires
        all_free_of(parts, sep),
        glue != sep,
    ensures
        free_of(join(parts, glue), sep),
    decreases parts.len(),
{
    if parts.len() >= 2 {
        let init = parts.drop_last();
        assert forall|i: int| 0 <= i < init.len() implies free_of(#[trigger] init[i], sep) by {
            assert(init[i] == parts[i]);
        }
        lemma_join_free_of(init, glue, sep);
        assert(free_of(parts.last(), sep));
    } else if parts.len() == 1 {
        assert(free_of(parts[0], sep));
    }
}

/// The fields of `s` between occurrences of `sep`, as sub-slices of `s` in
/// their order.
pub fn split_fields<'a>(s: &'a [u8], sep: u8) -> (fields: Vec<&'a [u8]>)
    ensures
        fields@.len() == split(s@, sep).len(),
        forall|i: int| 0 <= i < fields@.len() ==> (#[trigger] fields@[i])@ == split(s@, sep)[i],
{
    let mut fields: Vec<&'a [u8]> = Vec::new();
    let n: usize = s.len();
    let mut start: usize = 0;
    let mut i: usize = 0;
    assert(s@.skip(0) =~= s@);
    while i < n
        invariant
            n == s@.len(),
            start <= i <= n,
            forall|j: int| start <= j < i ==> s@[j] != sep,
            split(s@, sep).len() == fields@.len() + split(s@.skip(start as int), sep).len(),
            forall|k: int| 0 <= k < fields@.len() ==> (#[trigger] fields@[k])@ == split(s@, sep)[k],
            forall|k: int|
                0 <= k < split(s@.skip(start as int), sep).len() ==> split(s@, sep)[fields@.len()
                    + k] == #[trigger] split(s@.skip(start as int), sep)[k],
        decreases n - i,
    {
        if s[i] == sep {
            let field: &'a [u8] = slice_subrange(s, start, i);
            proof {
                let rest = s@.skip(start as int);
                let k = (i - start) as int;
                assert forall|j: int| 0 <= j < k implies rest[j] != sep by {
                    assert(rest[j] == s@[start + j]);
                }
                assert(rest[k] == s@[i as int]);
                lemma_first_index_is(rest, sep, k);
                assert(rest.take(k) =~= s@.subrange(start as int, i as int));
                assert(rest.skip(k + 1) =~= s@.skip(i + 1));
                let tail = split(s@.skip(i + 1), sep);
                assert(split(rest, sep) == seq![rest.take(k)] + tail);
                assert(split(rest, sep)[0] == rest.take(k));
                assert forall|m: int| 0 <= m < tail.len() implies split(s@, sep)[fields@.len() + 1
                    + m] == #[trigger] tail[m] by {
                    assert(split(rest, sep)[m + 1] == tail[m]);
                }
            }
            fields.push(field);
            start = i + 1;
        }
        i = i + 1;
    }
    let last: &'a [u8] = slice_subrange(s, start, n);
    proof {
        let rest = s@.skip(start as int);
        assert forall|j: int| 0 <= j < rest.len() implies rest[j] != sep by {
            assert(rest[j] == s@[start + j]);
        }
        lemma_split_single(rest, sep);
        assert(rest =~= s@.subrange(start as int, n as int));
        assert(split(rest, sep)[0] == rest);
    }
    fields.push(last);
    fields
}

/// `s` without the blanks at either end, as a sub-slice of `s`.
pub fn trim_blanks<'a>(s: &'a [u8]) -> (trimmed: &'a [u8])
    ensures
        trimmed@ == trim(s@),
{
    let n: usize = s.len();
    let mut start: usize = 0;
    assert(s@.skip(0) =~= s@);
    while start < n && is_blank_byte(s[start])
        invariant
            n == s@.len(),
            start <= n,
            trim_start(s@) == trim_start(s@.skip(start as int)),
        decreases n - start,
    {
        proof {
            assert(s@.skip(start as int)[0] == s@[start as int]);
            assert(s@.skip(start as int).skip(1) =~= s@.skip(start + 1));
        }
        start = start + 1;
    }
    proof {
        if start < n {
            assert(s@.skip(start as int)[0] == s@[start as int]);
        }
        assert(trim_start(s@) == s@.skip(start as int));
    }
    let mut end: usize = n;
    while end > start && is_blank_byte(s[end - 1])
        invariant
            n == s@.len(),
            start <= end <= n,
            trim(s@) == trim_end(s@.subrange(start as int, end as int)),
        decreases end - start,
    {
        proof {
            let cur = s@.subrange(start as int, end as int);
            assert(cur.last() == s@[end - 1]);
            assert(cur.drop_last() =~= s@.subrange(start as int, end - 1));
        }
        end = end - 1;
    }
    proof {
        let cur = s@.subrange(start as int, end as int);
        if end > start {
            assert(cur.last() == s@[end - 1]);
        }
        assert(trim_end(cur) == cur);
    }
    slice_subrange(s, start, end)
}

/// Whether `b` is a blank.
pub fn is_blank_byte(b: u8) -> (blank: bool)
    ensures
        blank == is_blank(b),
{
    b == 32 || (9 <= b && b <= 13)
}

/// Whether `s` begins with the bytes of `prefix`.
pub open spec fn starts_with(s: Seq<u8>, prefix: Seq<u8>) -> bool {
    prefix.len() <= s.len() && s.take(prefix.len() as int) == prefix
}

/// Whether two byte strings are the same.
pub fn same_bytes(a: &[u8], b: &[u8]) -> (same: bool)
    ensures
        same == (a@ == b@),
{
    if a.len() != b.len() {
        return false;
    }
    let n: usize = a.len();
    let mut i: usize = 0;
    while i < n
        invariant
            n == a@.len(),
            n == b@.len(),
            i <= n,
            forall|j: int| 0 <= j < i ==> a@[j] == b@[j],
        decreases n - i,
    {
        if a[i] != b[i] {
            return false;
        }
        i = i + 1;
    }
    assert(a@ =~= b@);
    true
}

/// Whether `s` begins with the bytes of `prefix`.
pub fn has_prefix(s: &[u8], prefix: &[u8]) -> (yes: bool)
    ensures
        yes == starts_with(s@, prefix@),
{
    if prefix.len() > s.len() {
        return false;
    }
    let head: &[u8] = slice_subrange(s, 0, prefix.len());
    same_bytes(head, prefix)
}

} // verus!
