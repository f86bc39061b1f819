//! The order of names: byte by byte, as strings are ordered.

use vstd::prelude::*;

verus! {

/// How one name stands to another.
#[derive(Clone, Copy, Debug, PartialEq, Eq, Structural)]
pub enum NameOrder {
    Before,
    Same,
    After,
}

/// Whether `left` comes before `right` byte by byte.
pub open spec fn bytes_before(left: Seq<u8>, right: Seq<u8>) -> bool
    decreases left.len(),
{
    if right.len() == 0 {
        false
    } else if left.len() == 0 {
        true
    } else if left[0] != right[0] {
        left[0] < right[0]
    } else {
        bytes_before(left.drop_first(), right.drop_first())
    }
}

/// Whether the name `left` comes before the name `right`.
pub open spec fn name_before(left: Seq<char>, right: Seq<char>) -> bool {
    bytes_before(vstd::utf8::encode_utf8(left), vstd::utf8::encode_utf8(right))
}

proof fn lemma_bytes_irreflexive(bytes: Seq<u8>)
    ensures
        !bytes_before(bytes, bytes),
    decreases bytes.len(),
{
    if bytes.len() > 0 {
        lemma_bytes_irreflexive(bytes.drop_first());
    }
}

proof fn lemma_bytes_transitive(a: Seq<u8>, b: Seq<u8>, c: Seq<u8>)
    requires
        bytes_before(a, b),
        bytes_before(b, c),
    ensures
        bytes_before(a, c),
    decreases a.len(),
{
    if a.len() > 0 && a[0] == b[0] && b[0] == c[0] {
        lemma_bytes_transitive(a.drop_first(), b.drop_first(), c.drop_first());
    }
}

/// No name comes before itself.
pub proof fn lemma_irreflexive(name: Seq<char>)
    ensures
        !name_before(name, name),
{
    lemma_bytes_irreflexive(vstd::utf8::encode_utf8(name));
}

/// The order of names is transitive.
pub proof fn lemma_transitive(a: Seq<char>, b: Seq<char>, c: Seq<char>)
    requires
        name_before(a, b),
        name_before(b, c),
    ensures
        name_before(a, c),
{
    lemma_bytes_transitive(
        vstd::utf8::encode_utf8(a),
        vstd::utf8::encode_utf8(b),
        vstd::utf8::encode_utf8(c),
    );
}

/// Tells how `left` stands to `right`.
pub fn compare_names(left: &str, right: &str) -> (order: NameOrder)
    ensures
        order == NameOrder::Before <==> name_before(left@, right@),
        order == NameOrder::Same <==> left@ == right@,
        order == NameOrder::After <==> name_before(right@, left@),
{
    let a: &[u8] = left.as_bytes();
    let b: &[u8] = right.as_bytes();
    let ghost x = a@;
    let ghost y = b@;
    proof {
        lemma_irreflexive(left@);
        vstd::utf8::encode_utf8_decode_utf8(left@);
        vstd::utf8::encode_utf8_decode_utf8(right@);
        assert(x.skip(0) =~= x);
        assert(y.skip(0) =~= y);
    }
    let mut i: usize = 0;
    while i < a.len() && i < b.len()
        invariant
            x == a@,
            y == b@,
            x == vstd::utf8::encode_utf8(left@),
            y == vstd::utf8::encode_utf8(right@),
            !name_before(left@, left@),
            i <= x.len(),
            i <= y.len(),
            x.take(i as int) == y.take(i as int),
            bytes_before(x, y) == bytes_before(x.skip(i as int), y.skip(i as int)),
            bytes_before(y, x) == bytes_before(y.skip(i as int), x.skip(i as int)),
        decreases x.len() - i,
    {
        assert(x.skip(i as int).drop_first() =~= x.skip(i + 1));
        assert(y.skip(i as int).drop_first() =~= y.skip(i + 1));
        if a[i] < b[i] {
            return NameOrder::Before;
        }
        if a[i] > b[i] {
            return NameOrder::After;
        }
        assert(x.take(i + 1) =~= x.take(i as int).push(x[i as int]));
        assert(y.take(i + 1) =~= y.take(i as int).push(y[i as int]));
        i += 1;
    }
    if i < b.len() {
        NameOrder::Before
    } else if i < a.len() {
        NameOrder::After
    } else {
        assert(x.take(i as int) =~= x);
        assert(y.take(i as int) =~= y);
        NameOrder::Same
    }
}

/// One sequence of bytes comes before another exactly if it is the start of the other, or if at
/// the first place where they differ it has the smaller byte.
pub proof fn law_first_difference_decides(left: Seq<u8>, right: Seq<u8>, same: int)
    requires
        0 <= same <= left.len(),
        same <= right.len(),
        left.take(same) == right.take(same),
        same < left.len() && same < right.len() ==> left[same] != right[same],
    ensures
        bytes_before(left, right) <==> if same < left.len() && same < right.len() {
            left[same] < right[same]
        } else {
            left.len() < right.len()
        },
    decreases same,
{
    if same > 0 {
        assert(left[0] == left.take(same)[0]);
        assert(right[0] == right.take(same)[0]);
        assert(left.drop_first().take(same - 1) =~= left.take(same).drop_first());
        assert(right.drop_first().take(same - 1) =~= right.take(same).drop_first());
        law_first_difference_decides(left.drop_first(), right.drop_first(), same - 1);
    }
}

} // verus!
