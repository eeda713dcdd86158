//! Which of the nodes that the kernel lists are keyboards.
//!
//! File names and paths are byte strings, as the kernel has them.
use vstd::prelude::*;

use crate::text::{contains, matches_at};

verus! {

/// `/dev/input/by-id/`, the directory in which input devices are listed by name.
pub const BY_ID: [u8; 17] = [
    0x2f, 0x64, 0x65, 0x76, 0x2f, 0x69, 0x6e, 0x70, 0x75, 0x74, 0x2f, 0x62, 0x79, 0x2d, 0x69, 0x64, 0x2f,
];

/// `kbd`, which the names of keyboards hold.
pub const KBD: [u8; 3] = [0x6b, 0x62, 0x64];

/// `event`, which the names of event nodes hold.
pub const EVENT: [u8; 5] = [0x65, 0x76, 0x65, 0x6e, 0x74];

/// `if0`, which the names of the first interfaces of composite devices hold.
pub const IF0: [u8; 3] = [0x69, 0x66, 0x30];

/// Whether a name in the listing is that of a keyboard's event node.
pub open spec fn keyboard_name(name: Seq<u8>) -> bool {
    contains(name, KBD@) && contains(name, EVENT@) && !contains(name, IF0@)
}

/// The path of a listed node.
pub open spec fn path_of(name: Seq<u8>) -> Seq<u8> {
    BY_ID@ + name
}

/// Whether byte string `a` comes before `b` in lexicographic order, or is `b`.
pub open spec fn not_after(a: Seq<u8>, b: Seq<u8>) -> bool
    decreases a.len(),
{
    if a.len() == 0 {
        true
    } else if b.len() == 0 {
        false
    } else if a[0] == b[0] {
        not_after(a.skip(1), b.skip(1))
    } else {
        a[0] < b[0]
    }
}

/// Whether each byte string comes before the ones that follow it, or is equal to them.
pub open spec fn in_order(paths: Seq<Seq<u8>>) -> bool {
    forall|i: int, j: int| 0 <= i < j < paths.len() ==> not_after(#[trigger] paths[i], #[trigger] paths[j])
}

/// The byte strings that vectors hold.
pub open spec fn contents(paths: Seq<Vec<u8>>) -> Seq<Seq<u8>> {
    Seq::new(paths.len(), |i: int| paths[i]@)
}

/// The paths of the keyboards among the listed nodes, in the order of the listing.
pub open spec fn keyboard_paths(names: Seq<Seq<u8>>) -> Seq<Seq<u8>>
    decreases names.len(),
{
    if names.len() == 0 {
        seq![]
    } else if keyboard_name(names.last()) {
        keyboard_paths(names.drop_last()).push(path_of(names.last()))
    } else {
        keyboard_paths(names.drop_last())
    }
}

/// The order of byte strings is total.
proof fn lemma_order_total(a: Seq<u8>, b: Seq<u8>)
    ensures
        not_after(a, b) || not_after(b, a),
    decreases a.len(),
{
    if a.len() > 0 && b.len() > 0 {
        lemma_order_total(a.skip(1), b.skip(1));
    }
}

/// The order of byte strings is transitive.
proof fn lemma_order_transitive(a: Seq<u8>, b: Seq<u8>, c: Seq<u8>)
    requires
        not_after(a, b),
        not_after(b, c),
    ensures
        not_after(a, c),
    decreases a.len(),
{
    if a.len() > 0 && b.len() > 0 && c.len() > 0 && a[0] == b[0] && b[0] == c[0] {
        lemma_order_transitive(a.skip(1), b.skip(1), c.skip(1));
    }
}

/// Whether `pattern` stands somewhere in `s`.
fn contains_bytes(s: &Vec<u8>, pattern: &[u8]) -> (b: bool)
    ensures
        b == contains(s@, pattern@),
{
    let len: usize = s.len();
    let mut i: usize = 0;
    while i <= len && pattern.len() <= len - i
        invariant
            len == s@.len(),
            i <= len + 1,
            forall|j: int| 0 <= j < i ==> !matches_at(s@, j, pattern@),
        decreases len + 1 - i,
    {
        let mut k: usize = 0;
        while k < pattern.len() && s[i + k] == pattern[k as usize]
            invariant
                len == s@.len(),
                i + pattern@.len() <= len,
                k <= pattern@.len(),
                forall|j: int| 0 <= j < k ==> s@[i + j] == pattern@[j],
            decreases pattern@.len() - k,
        {
            k += 1;
        }
        if k == pattern.len() {
            assert(s@.subrange(i as int, i + pattern@.len()) =~= pattern@);
            assert(matches_at(s@, i as int, pattern@));
            return true;
        }
        assert(s@.subrange(i as int, i + pattern@.len())[k as int] != pattern@[k as int]);
        i += 1;
    }
    false
}

/// Whether a name in the listing is that of a keyboard's event node.
pub fn is_keyboard_name(name: &Vec<u8>) -> (b: bool)
    ensures
        b == keyboard_name(name@),
{
    contains_bytes(name, &KBD) && contains_bytes(name, &EVENT) && !contains_bytes(name, &IF0)
}

/// The path of a listed node.
pub fn node_path(name: &Vec<u8>) -> (path: Vec<u8>)
    ensures
        path@ == path_of(name@),
{
    let mut path: Vec<u8> = Vec::new();
    let mut i: usize = 0;
    while i < BY_ID.len()
        invariant
            i <= BY_ID@.len(),
            path@ == BY_ID@.take(i as int),
        decreases BY_ID@.len() - i,
    {
        path.push(BY_ID[i]);
        assert(BY_ID@.take(i + 1) =~= BY_ID@.take(i as int).push(BY_ID@[i as int]));
        i += 1;
    }
    let mut k: usize = 0;
    assert(path@ =~= BY_ID@ + name@.take(0));
    while k < name.len()
        invariant
            k <= name@.len(),
            path@ == BY_ID@ + name@.take(k as int),
        decreases name@.len() - k,
    {
        path.push(name[k]);
        assert(path@ =~= BY_ID@ + name@.take(k + 1));
        k += 1;
    }
    assert(name@.take(k as int) =~= name@);
    path
}

/// Whether byte string `a` comes before `b` in lexicographic order, or is `b`.
fn is_not_after(a: &Vec<u8>, b: &Vec<u8>) -> (r: bool)
    ensures
        r == not_after(a@, b@),
{
    let mut i: usize = 0;
    assert(a@.skip(0) =~= a@ && b@.skip(0) =~= b@);
    while i < a.len() && i < b.len()
        invariant
            i <= a@.len(),
            i <= b@.len(),
            not_after(a@, b@) == not_after(a@.skip(i as int), b@.skip(i as int)),
        decreases a@.len() - i,
    {
        if a[i] != b[i] {
            return a[i] < b[i];
        }
        assert(a@.skip(i as int).skip(1) =~= a@.skip(i + 1));
        assert(b@.skip(i as int).skip(1) =~= b@.skip(i + 1));
        i += 1;
    }
    i == a.len()
}

/// Puts a path into an ordered list, behind the paths that do not come after it.
fn insert_in_order(paths: &mut Vec<Vec<u8>>, path: Vec<u8>)
    requires
        in_order(contents(old(paths)@)),
    ensures
        in_order(contents(final(paths)@)),
        contents(final(paths)@).to_multiset() == contents(old(paths)@).to_multiset().insert(path@),
{
    let ghost before = contents(paths@);
    let mut at: usize = paths.len();
    while at > 0 && !is_not_after(&paths[at - 1], &path)
        invariant
            at <= paths@.len(),
            before == contents(paths@),
            paths@ == old(paths)@,
            in_order(before),
            forall|k: int| at <= k < before.len() ==> not_after(path@, #[trigger] before[k]),
        decreases at,
    {
        proof {
            lemma_order_total(paths@[at - 1]@, path@);
            assert(before[at - 1] == paths@[at - 1]@);
        }
        at -= 1;
    }
    let ghost new = path@;
    proof {
        if at > 0 {
            assert(before[at - 1] == paths@[at - 1]@);
            assert(not_after(before[at - 1], new));
            assert forall|k: int| 0 <= k < at implies not_after(#[trigger] before[k], new) by {
                if k < at - 1 {
                    lemma_order_transitive(before[k], before[at - 1], new);
                }
            }
        }
    }
    paths.insert(at, path);
    proof {
        let after = contents(paths@);
        assert(after =~= before.insert(at as int, new));
        vstd::seq_lib::to_multiset_insert(before, at as int, new);
        assert forall|i: int, j: int| 0 <= i < j < after.len() implies not_after(
            #[trigger] after[i],
            #[trigger] after[j],
        ) by {
            let bi = if i < at { i } else { i - 1 };
            let bj = if j < at { j } else { j - 1 };
            if i == at {
                assert(after[j] == before[bj]);
            } else if j == at {
                assert(after[i] == before[bi]);
            } else {
                assert(after[i] == before[bi] && after[j] == before[bj]);
            }
        }
    }
}

/// The paths of the keyboards among the nodes listed in `/dev/input/by-id/`: all of them,
/// in lexicographic order, so that they come out the same whatever the order of the
/// listing.
pub fn enumerate_keyboards(names: &Vec<Vec<u8>>) -> (paths: Vec<Vec<u8>>)
    ensures
        in_order(contents(paths@)),
        contents(paths@).to_multiset() == keyboard_paths(contents(names@)).to_multiset(),
{
    let mut paths: Vec<Vec<u8>> = Vec::new();
    let mut i: usize = 0;
    let ghost all = contents(names@);
    assert(contents(paths@) =~= keyboard_paths(all.take(0)));
    while i < names.len()
        invariant
            i <= names@.len(),
            all == contents(names@),
            in_order(contents(paths@)),
            contents(paths@).to_multiset() == keyboard_paths(all.take(i as int)).to_multiset(),
        decreases names@.len() - i,
    {
        assert(all.take(i + 1).drop_last() =~= all.take(i as int));
        assert(all.take(i + 1).last() == names@[i as int]@);
        if is_keyboard_name(&names[i]) {
            let path: Vec<u8> = node_path(&names[i]);
            proof {
                vstd::seq_lib::to_multiset_build(keyboard_paths(all.take(i as int)), path@);
            }
            insert_in_order(&mut paths, path);
        }
        i += 1;
    }
    assert(all.take(i as int) =~= all);
    paths
}

/// The keyboard to use where none is configured: of the keyboard nodes among the given
/// ones, the one whose path comes first.
pub fn detect_keyboard(names: &Vec<Vec<u8>>) -> (r: Result<Vec<u8>, String>)
    ensures
        match r {
            Ok(path) => {
                &&& keyboard_paths(contents(names@)).contains(path@)
                &&& forall|p: Seq<u8>| #[trigger]
                    keyboard_paths(contents(names@)).contains(p) ==> not_after(path@, p)
            },
            Err(message) => {
                &&& keyboard_paths(contents(names@)).len() == 0
                &&& message@
                    == "no keyboard found in /dev/input/by-id/; set keyboard_device in config"@
            },
        },
{
    let paths: Vec<Vec<u8>> = enumerate_keyboards(names);
    let ghost found = keyboard_paths(contents(names@));
    let ghost ordered = contents(paths@);
    proof {
        ordered.to_multiset_ensures();
        found.to_multiset_ensures();
    }
    if paths.len() == 0 {
        assert(ordered.len() == found.len());
        return Err(
            "no keyboard found in /dev/input/by-id/; set keyboard_device in config".to_owned(),
        );
    }
    let first: Vec<u8> = paths[0].clone();
    proof {
        assert(first@ =~= ordered[0]);
        assert(ordered.contains(ordered[0]));
        assert(found.to_multiset().count(ordered[0]) > 0);
        assert forall|p: Seq<u8>| #[trigger] found.contains(p) implies not_after(first@, p) by {
            assert(ordered.to_multiset().count(p) > 0);
            let k = choose|k: int| 0 <= k < ordered.len() && ordered[k] == p;
            lemma_order_total(p, p);
            assert(k == 0 || not_after(ordered[0], ordered[k]));
        }
    }
    Ok(first)
}

/// The order of byte strings is antisymmetric.
proof fn lemma_order_antisymmetric(a: Seq<u8>, b: Seq<u8>)
    requires
        not_after(a, b),
        not_after(b, a),
    ensures
        a == b,
    decreases a.len(),
{
    if a.len() > 0 && b.len() > 0 {
        lemma_order_antisymmetric(a.skip(1), b.skip(1));
        assert(a =~= seq![a[0]] + a.skip(1));
        assert(b =~= seq![b[0]] + b.skip(1));
    } else {
        assert(a =~= b);
    }
}

/// Two ordered lists of the same paths are the same list.
proof fn lemma_ordered_lists_agree(a: Seq<Seq<u8>>, b: Seq<Seq<u8>>)
    requires
        in_order(a),
        in_order(b),
        a.to_multiset() == b.to_multiset(),
    ensures
        a == b,
{
    let order = |x: Seq<u8>, y: Seq<u8>| not_after(x, y);
    assert forall|x: Seq<u8>, y: Seq<u8>| #[trigger] order(x, y) || order(y, x) by {
        lemma_order_total(x, y);
    }
    assert forall|x: Seq<u8>, y: Seq<u8>| #[trigger] order(x, y) && #[trigger] order(y, x) implies x
        == y by {
        lemma_order_antisymmetric(x, y);
    }
    assert forall|x: Seq<u8>, y: Seq<u8>, z: Seq<u8>| #[trigger]
        order(x, y) && #[trigger] order(y, z) implies order(x, z) by {
        lemma_order_transitive(x, y, z);
    }
    assert forall|x: Seq<u8>| #[trigger] order(x, x) by {
        lemma_order_total(x, x);
    }
    assert forall|i: int, j: int| 0 <= i < j < a.len() implies #[trigger] order(a[i], a[j]) by {}
    assert forall|i: int, j: int| 0 <= i < j < b.len() implies #[trigger] order(b[i], b[j]) by {}
    vstd::seq_lib::lemma_sorted_unique(a, b, order);
}

/// The keyboards of a listing in two parts are those of its parts.
proof fn lemma_paths_of_parts(a: Seq<Seq<u8>>, b: Seq<Seq<u8>>)
    ensures
        keyboard_paths(a + b) == keyboard_paths(a) + keyboard_paths(b),
    decreases b.len(),
{
    if b.len() == 0 {
        assert(a + b =~= a);
        assert(keyboard_paths(a) + keyboard_paths(b) =~= keyboard_paths(a));
    } else {
        assert((a + b).drop_last() =~= a + b.drop_last());
        lemma_paths_of_parts(a, b.drop_last());
        assert(keyboard_paths(a + b) =~= keyboard_paths(a) + keyboard_paths(b));
    }
}

/// Two listings of the same nodes have the same keyboards.
proof fn lemma_same_nodes_same_keyboards(a: Seq<Seq<u8>>, b: Seq<Seq<u8>>)
    requires
        a.to_multiset() == b.to_multiset(),
    ensures
        keyboard_paths(a).to_multiset() == keyboard_paths(b).to_multiset(),
    decreases a.len(),
{
    broadcast use vstd::seq_lib::group_to_multiset_ensures;

    assert(a.len() == a.to_multiset().len() && b.len() == b.to_multiset().len());
    if a.len() == 0 {
        assert(a =~= b);
    } else {
        let x = a.last();
        let rest = a.drop_last();
        assert(a =~= rest.push(x));
        assert(a.to_multiset().count(x) > 0) by {
            assert(a.contains(x));
        }
        assert(b.contains(x));
        let j = choose|j: int| 0 <= j < b.len() && b[j] == x;
        let front = b.take(j);
        let back = b.skip(j + 1);
        assert(b =~= front + seq![x] + back);
        assert(b.remove(j) =~= front + back);
        vstd::seq_lib::to_multiset_remove(b, j);
        vstd::seq_lib::to_multiset_build(rest, x);
        assert(rest.to_multiset() =~= b.remove(j).to_multiset());
        lemma_same_nodes_same_keyboards(rest, front + back);
        lemma_paths_of_parts(front, back);
        lemma_paths_of_parts(front + seq![x], back);
        lemma_paths_of_parts(front, seq![x]);
        lemma_paths_of_parts(rest, seq![x]);
        assert(rest + seq![x] =~= a);
        let one = keyboard_paths(seq![x]);
        let f = keyboard_paths(front);
        let k = keyboard_paths(back);
        vstd::seq_lib::lemma_multiset_commutative(f + one, k);
        vstd::seq_lib::lemma_multiset_commutative(f, one);
        vstd::seq_lib::lemma_multiset_commutative(f, k);
        vstd::seq_lib::lemma_multiset_commutative(keyboard_paths(rest), one);
        assert(keyboard_paths(a).to_multiset() =~= keyboard_paths(b).to_multiset());
    }
}

/// The keyboards that come out do not depend on the order in which the nodes are listed.
pub proof fn enumeration_ignores_listing_order(
    names: Seq<Seq<u8>>,
    other_names: Seq<Seq<u8>>,
    paths: Seq<Seq<u8>>,
    other_paths: Seq<Seq<u8>>,
)
    requires
        names.to_multiset() == other_names.to_multiset(),
        in_order(paths),
        in_order(other_paths),
        paths.to_multiset() == keyboard_paths(names).to_multiset(),
        other_paths.to_multiset() == keyboard_paths(other_names).to_multiset(),
    ensures
        paths == other_paths,
{
    lemma_same_nodes_same_keyboards(names, other_names);
    lemma_ordered_lists_agree(paths, other_paths);
}

/// A name is that of a keyboard exactly if `kbd` and `event` stand somewhere in it and `if0`
/// stands nowhere in it; its path is `/dev/input/by-id/` and the name.
pub proof fn keyboards_are_told_by_name(
    name: Seq<u8>,
    kbd: Seq<u8>,
    event: Seq<u8>,
    if0: Seq<u8>,
    i: int,
    j: int,
)
    requires
        kbd == seq![0x6bu8, 0x62, 0x64],
        event == seq![0x65u8, 0x76, 0x65, 0x6e, 0x74],
        if0 == seq![0x69u8, 0x66, 0x30],
    ensures
        keyboard_name(name) ==> exists|k: int| #[trigger] matches_at(name, k, kbd),
        keyboard_name(name) ==> exists|k: int| #[trigger] matches_at(name, k, event),
        keyboard_name(name) ==> !matches_at(name, i, if0),
        matches_at(name, i, kbd) && matches_at(name, j, event) && (forall|k: int| !#[trigger]
            matches_at(name, k, if0)) ==> keyboard_name(name),
        path_of(name).len() == 17 + name.len(),
        path_of(name).skip(17) == name,
        path_of(name).take(17) == seq![
            0x2fu8,
            0x64,
            0x65,
            0x76,
            0x2f,
            0x69,
            0x6e,
            0x70,
            0x75,
            0x74,
            0x2f,
            0x62,
            0x79,
            0x2d,
            0x69,
            0x64,
            0x2f,
        ],
{
    assert(KBD@ =~= kbd);
    assert(EVENT@ =~= event);
    assert(IF0@ =~= if0);
    assert(path_of(name).skip(17) =~= name);
    assert(path_of(name).take(17) =~= BY_ID@);
}

/// Paths are ordered by their first bytes that differ; where one goes on behind the other, the
/// shorter one comes first.
pub proof fn paths_are_ordered_by_their_bytes(a: Seq<u8>, b: Seq<u8>, same: int)
    requires
        0 <= same <= a.len(),
        same <= b.len(),
        a.take(same) == b.take(same),
    ensures
        same < a.len() && same < b.len() && a[same] < b[same] ==> not_after(a, b) && !not_after(
            b,
            a,
        ),
        same == a.len() ==> not_after(a, b),
        same == a.len() && same < b.len() ==> !not_after(b, a),
    decreases same,
{
    if same > 0 {
        assert(a[0] == a.take(same)[0] && b[0] == b.take(same)[0]);
        assert(a.skip(1).take(same - 1) =~= a.take(same).skip(1));
        assert(b.skip(1).take(same - 1) =~= b.take(same).skip(1));
        paths_are_ordered_by_their_bytes(a.skip(1), b.skip(1), same - 1);
    }
}

/// Every node is judged for itself: one more node adds its path if it is a keyboard, and nothing
/// if it is none.
pub proof fn nodes_are_judged_one_by_one(names: Seq<Seq<u8>>, name: Seq<u8>)
    ensures
        keyboard_paths(Seq::empty()).len() == 0,
        keyboard_name(name) ==> keyboard_paths(names.push(name)) == keyboard_paths(names).push(
            path_of(name),
        ),
        !keyboard_name(name) ==> keyboard_paths(names.push(name)) == keyboard_paths(names),
{
    assert(names.push(name).drop_last() =~= names);
}

} // verus!
