//! Ordering the names of hidraw devices
use vstd::prelude::*;

verus! {

/// The UTF-8 bytes of a name, which is what `String`'s order compares.
pub open spec fn name_bytes(s: String) -> Seq<u8> {
    vstd::utf8::encode_utf8(s@)
}

/// Byte-wise lexicographic order, in which a proper prefix comes first.
pub open spec fn bytes_le(a: Seq<u8>, b: Seq<u8>) -> bool
    decreases a.len(),
{
    if a.len() == 0 {
        true
    } else if b.len() == 0 {
        false
    } else if a[0] != b[0] {
        a[0] < b[0]
    } else {
        bytes_le(a.drop_first(), b.drop_first())
    }
}

/// Whether names stand in ascending order of their bytes.
pub open spec fn sorted_by_bytes(names: Seq<String>) -> bool {
    forall|i: int, j: int|
        0 <= i < j < names.len() ==> bytes_le(
            #[trigger] name_bytes(names[i]),
            #[trigger] name_bytes(names[j]),
        )
}

/// Any two byte strings are ordered one way or the other.
pub proof fn lemma_bytes_le_total(a: Seq<u8>, b: Seq<u8>)
    ensures
        bytes_le(a, b) || bytes_le(b, a),
    decreases a.len(),
{
    if a.len() > 0 && b.len() > 0 && a[0] == b[0] {
        lemma_bytes_le_total(a.drop_first(), b.drop_first());
    }
}

/// The byte order is transitive.
pub proof fn lemma_bytes_le_transitive(a: Seq<u8>, b: Seq<u8>, c: Seq<u8>)
    requires
        bytes_le(a, b),
        bytes_le(b, c),
    ensures
        bytes_le(a, c),
    decreases a.len(),
{
    if a.len() > 0 && b.len() > 0 && c.len() > 0 && a[0] == b[0] && b[0] == c[0] {
        lemma_bytes_le_transitive(a.drop_first(), b.drop_first(), c.drop_first());
    }
}

/// Compares two byte strings in lexicographic order.
fn slice_le(a: &[u8], b: &[u8]) -> (r: bool)
    ensures
        r == bytes_le(a@, b@),
{
    let mut i: usize = 0;
    assert(a@.skip(0) =~= a@ && b@.skip(0) =~= b@);
    while i < a.len() && i < b.len() && a[i] == b[i]
        invariant
            i <= a.len(),
            i <= b.len(),
            bytes_le(a@, b@) == bytes_le(a@.skip(i as int), b@.skip(i as int)),
        decreases a.len() - i,
    {
        assert(a@.skip(i as int).drop_first() =~= a@.skip(i + 1));
        assert(b@.skip(i as int).drop_first() =~= b@.skip(i + 1));
        i += 1;
    }
    if i == a.len() {
        true
    } else if i == b.len() {
        false
    } else {
        assert(a@.skip(i as int)[0] == a@[i as int]);
        assert(b@.skip(i as int)[0] == b@[i as int]);
        a[i] < b[i]
    }
}

/// Inserting `name` where everything before is not above it and the element
/// at the position, if any, is above it keeps the sequence sorted.
proof fn lemma_insert_keeps_sorted(s: Seq<String>, pos: int, name: String)
    requires
        sorted_by_bytes(s),
        0 <= pos <= s.len(),
        forall|k: int| 0 <= k < pos ==> bytes_le(#[trigger] name_bytes(s[k]), name_bytes(name)),
        pos < s.len() ==> !bytes_le(name_bytes(s[pos]), name_bytes(name)),
    ensures
        sorted_by_bytes(s.insert(pos, name)),
{
    let t = s.insert(pos, name);
    if pos < s.len() {
        lemma_bytes_le_total(name_bytes(s[pos]), name_bytes(name));
    }
    assert forall|i: int, j: int| 0 <= i < j < t.len() implies bytes_le(
        #[trigger] name_bytes(t[i]),
        #[trigger] name_bytes(t[j]),
    ) by {
        if j < pos {
            assert(t[i] == s[i] && t[j] == s[j]);
        } else if j == pos {
            assert(t[i] == s[i] && t[j] == name);
        } else if i < pos {
            assert(t[i] == s[i] && t[j] == s[j - 1]);
        } else if i == pos {
            assert(t[i] == name && t[j] == s[j - 1]);
            if j - 1 > pos {
                assert(bytes_le(name_bytes(s[pos]), name_bytes(s[j - 1])));
                lemma_bytes_le_transitive(name_bytes(name), name_bytes(s[pos]), name_bytes(s[j - 1]));
            }
        } else {
            assert(t[i] == s[i - 1] && t[j] == s[j - 1]);
        }
    }
}

/// Sorts hidraw device names the way `String`'s order does: ascending by
/// their bytes. The result holds the same names.
pub fn sort_hidraw_names(names: Vec<String>) -> (r: Vec<String>)
    ensures
        r@.to_multiset() == names@.to_multiset(),
        sorted_by_bytes(r@),
{
    broadcast use vstd::seq_lib::group_to_multiset_ensures;

    let mut sorted: Vec<String> = Vec::new();
    let mut rest = names;
    while rest.len() > 0
        invariant
            sorted_by_bytes(sorted@),
            sorted@.to_multiset().add(rest@.to_multiset()) == names@.to_multiset(),
        decreases rest.len(),
    {
        let ghost before = rest@;
        let name = rest.pop().unwrap();
        proof {
            assert(before =~= rest@.push(name));
            rest@.to_multiset_ensures();
            assert(before.to_multiset() =~= rest@.to_multiset().insert(name));
        }
        let mut pos: usize = 0;
        while pos < sorted.len() && slice_le(sorted[pos].as_str().as_bytes(), name.as_str().as_bytes())
            invariant
                pos <= sorted.len(),
                forall|k: int| 0 <= k < pos ==> bytes_le(#[trigger] name_bytes(sorted@[k]), name_bytes(name)),
            decreases sorted.len() - pos,
        {
            pos += 1;
        }
        let ghost old_sorted = sorted@;
        proof {
            lemma_insert_keeps_sorted(old_sorted, pos as int, name);
        }
        sorted.insert(pos, name);
        proof {
            assert(sorted@.remove(pos as int) =~= old_sorted);
            assert(sorted@[pos as int] == name);
            assert(sorted@.contains(name));
            sorted@.to_multiset_ensures();
            assert(sorted@.to_multiset().count(name) > 0);
            assert(sorted@.to_multiset().remove(name) =~= old_sorted.to_multiset());
            assert(sorted@.to_multiset() =~= old_sorted.to_multiset().insert(name));
            assert(sorted@.to_multiset().add(rest@.to_multiset()) =~= names@.to_multiset());
        }
    }
    sorted
}

} // verus!
