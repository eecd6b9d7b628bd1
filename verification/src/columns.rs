//! Sorting the columns of a table by what the end of their names says: the
//! nuclear charge of an atom, its position, or the force on it.
//!
//! The table has one column of each kind for every atom. In each kind the
//! columns stand in the order of the atoms, so the n-th column of a kind
//! belongs to the n-th atom.

use crate::text::{chars_of, ends_with};
use vstd::prelude::*;

verus! {

/// What a column holds for one atom.
#[derive(Clone, Copy, Debug, PartialEq, Eq, Structural)]
pub enum ColumnKind {
    /// The nuclear charge, an integer. The column's name ends with `_charge`.
    Charge,
    /// The position, a vector cell. The column's name ends with `_coord`.
    Coordinate,
    /// The force, a vector cell. The column's name ends with `_force`.
    Force,
}

/// The positions of the columns of each kind, each list in the order of the header.
#[derive(Clone, Debug, PartialEq, Eq)]
pub struct ColumnIndexGroups {
    pub charge_columns: Vec<usize>,
    pub coordinate_columns: Vec<usize>,
    pub force_columns: Vec<usize>,
}

/// What a `ColumnIndexGroups` holds, as sequences.
pub struct ColumnGroups {
    pub charge: Seq<usize>,
    pub coordinate: Seq<usize>,
    pub force: Seq<usize>,
}

impl View for ColumnIndexGroups {
    type V = ColumnGroups;

    open spec fn view(&self) -> ColumnGroups {
        ColumnGroups {
            charge: self.charge_columns@,
            coordinate: self.coordinate_columns@,
            force: self.force_columns@,
        }
    }
}

/// The end of the name of a column of `kind`.
pub open spec fn marker(kind: ColumnKind) -> Seq<char> {
    match kind {
        ColumnKind::Charge => "_charge"@,
        ColumnKind::Coordinate => "_coord"@,
        ColumnKind::Force => "_force"@,
    }
}

/// The kind of the column called `name`, if the name ends with a marker.
pub open spec fn kind_of(name: Seq<char>) -> Option<ColumnKind> {
    if marker(ColumnKind::Charge).is_suffix_of(name) {
        Some(ColumnKind::Charge)
    } else if marker(ColumnKind::Coordinate).is_suffix_of(name) {
        Some(ColumnKind::Coordinate)
    } else if marker(ColumnKind::Force).is_suffix_of(name) {
        Some(ColumnKind::Force)
    } else {
        None
    }
}

/// The positions of the columns of `kind` in `header`, in ascending order.
pub open spec fn columns_of(header: Seq<Seq<char>>, kind: ColumnKind) -> Seq<usize>
    decreases header.len(),
{
    if header.len() == 0 {
        Seq::empty()
    } else {
        let before = columns_of(header.drop_last(), kind);
        if kind_of(header.last()) == Some(kind) {
            before.push((header.len() - 1) as usize)
        } else {
            before
        }
    }
}

/// The columns of every kind in `header`.
pub open spec fn groups_of(header: Seq<Seq<char>>) -> ColumnGroups {
    ColumnGroups {
        charge: columns_of(header, ColumnKind::Charge),
        coordinate: columns_of(header, ColumnKind::Coordinate),
        force: columns_of(header, ColumnKind::Force),
    }
}

/// A name ends with the marker of its kind and with no other marker.
pub proof fn lemma_one_marker(name: Seq<char>, kind: ColumnKind)
    ensures
        kind_of(name) == Some(kind) <==> marker(kind).is_suffix_of(name),
{
    reveal_strlit("_charge");
    reveal_strlit("_coord");
    reveal_strlit("_force");
    let n = name.len() as int;
    if marker(ColumnKind::Charge).is_suffix_of(name) {
        let tail = name.subrange(n - 7, n);
        assert(tail[4] == 'r' && tail[6] == 'e');
        assert(name[n - 1] == 'e' && name[n - 3] == 'r');
        if marker(ColumnKind::Coordinate).is_suffix_of(name) {
            assert(name.subrange(n - 6, n)[5] == 'd');
        }
        if marker(ColumnKind::Force).is_suffix_of(name) {
            assert(name.subrange(n - 6, n)[3] == 'r');
            assert(name.subrange(n - 6, n)[2] == 'o');
            assert(tail[3] == 'a');
        }
    }
    if marker(ColumnKind::Coordinate).is_suffix_of(name) {
        assert(name.subrange(n - 6, n)[5] == 'd');
        if marker(ColumnKind::Force).is_suffix_of(name) {
            assert(name.subrange(n - 6, n)[5] == 'e');
        }
    }
}

/// The columns of a kind are exactly the positions in the header at which a
/// name of that kind stands, and they ascend: classification keeps the order
/// of the header.
pub proof fn lemma_columns_in_order(header: Seq<Seq<char>>, kind: ColumnKind)
    requires
        header.len() <= usize::MAX,
    ensures
        forall|k: int|
            0 <= k < columns_of(header, kind).len() ==> {
                let c = #[trigger] columns_of(header, kind)[k];
                c < header.len() && kind_of(header[c as int]) == Some(kind)
            },
        forall|c: int|
            0 <= c < header.len() && kind_of(#[trigger] header[c]) == Some(kind)
                ==> columns_of(header, kind).contains(c as usize),
        forall|j: int, k: int|
            0 <= j < k < columns_of(header, kind).len() ==> columns_of(header, kind)[j]
                < columns_of(header, kind)[k],
    decreases header.len(),
{
    if header.len() > 0 {
        let shorter = header.drop_last();
        let before = columns_of(shorter, kind);
        let all = columns_of(header, kind);
        lemma_columns_in_order(shorter, kind);
        assert forall|k: int| 0 <= k < all.len() implies {
            let c = #[trigger] all[k];
            c < header.len() && kind_of(header[c as int]) == Some(kind)
        } by {
            if k < before.len() {
                assert(all[k] == before[k]);
                assert(shorter[before[k] as int] == header[before[k] as int]);
            }
        }
        assert forall|c: int|
            0 <= c < header.len() && kind_of(#[trigger] header[c]) == Some(kind) implies all.contains(
            c as usize,
        ) by {
            if c < header.len() - 1 {
                assert(shorter[c] == header[c]);
                assert(before.contains(c as usize));
                let k = choose|k: int| 0 <= k < before.len() && before[k] == c as usize;
                assert(all[k] == c as usize);
            } else {
                assert(all[all.len() - 1] == c as usize);
            }
        }
        assert forall|j: int, k: int| 0 <= j < k < all.len() implies all[j] < all[k] by {
            if k < before.len() {
                assert(all[j] == before[j] && all[k] == before[k]);
            } else {
                assert(all[j] == before[j]);
                assert(before[j] < shorter.len());
            }
        }
    }
}

/// No column belongs to two kinds.
pub proof fn lemma_groups_apart(header: Seq<Seq<char>>, one: ColumnKind, other: ColumnKind)
    requires
        header.len() <= usize::MAX,
        one != other,
    ensures
        forall|c: usize|
            !(columns_of(header, one).contains(c) && #[trigger] columns_of(header, other).contains(
                c,
            )),
{
    lemma_columns_in_order(header, one);
    lemma_columns_in_order(header, other);
}

/// Sorts the columns of a table by the ends of the names in its header.
///
/// A column whose name ends with none of the three markers is in no group.
pub fn classify(header: &Vec<String>) -> (groups: ColumnIndexGroups)
    ensures
        groups@ == groups_of(header.deep_view()),
{
    let charge = chars_of("_charge");
    let coordinate = chars_of("_coord");
    let force = chars_of("_force");
    let ghost names = header.deep_view();
    let mut groups = ColumnIndexGroups {
        charge_columns: Vec::new(),
        coordinate_columns: Vec::new(),
        force_columns: Vec::new(),
    };
    let mut i: usize = 0;
    while i < header.len()
        invariant
            i <= header.len(),
            names == header.deep_view(),
            charge@ == marker(ColumnKind::Charge),
            coordinate@ == marker(ColumnKind::Coordinate),
            force@ == marker(ColumnKind::Force),
            groups@ == groups_of(names.take(i as int)),
        decreases header.len() - i,
    {
        let name = chars_of(header[i].as_str());
        proof {
            let next = names.take(i + 1);
            assert(next.drop_last() == names.take(i as int));
        }
        if ends_with(&name, &charge) {
            groups.charge_columns.push(i);
        } else if ends_with(&name, &coordinate) {
            groups.coordinate_columns.push(i);
        } else if ends_with(&name, &force) {
            groups.force_columns.push(i);
        }
        i += 1;
    }
    proof {
        assert(names.take(header.len() as int) == names);
    }
    groups
}

} // verus!
