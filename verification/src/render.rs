//! Writing a graph out as text for a reader: the time step, the energy, the
//! nuclear charges in one line, then one line for each position and one for
//! each force.
//!
//! The energy and the components of the vectors are handed in as texts,
//! written by the caller with the number of decimals that it wants.

use crate::number::{integer_text, push_integer};
use vstd::prelude::*;
use vstd::string::StringExecFns;

verus! {

/// The texts of `items` with `, ` between them.
pub open spec fn listed(items: Seq<i32>) -> Seq<char>
    decreases items.len(),
{
    if items.len() == 0 {
        Seq::empty()
    } else if items.len() == 1 {
        integer_text(items[0] as int)
    } else {
        listed(items.drop_last()) + ", "@ + integer_text(items.last() as int)
    }
}

/// The line of one vector: two spaces, then its components in brackets with
/// `, ` between them.
pub open spec fn vector_line(v: Seq<Seq<char>>) -> Seq<char> {
    "  ["@ + v[0] + ", "@ + v[1] + ", "@ + v[2] + "]"@
}

/// The lines of `vectors`, with a line break between them and none at the end.
pub open spec fn vector_lines(vectors: Seq<Seq<Seq<char>>>) -> Seq<char>
    decreases vectors.len(),
{
    if vectors.len() == 0 {
        Seq::empty()
    } else if vectors.len() == 1 {
        vector_line(vectors[0])
    } else {
        vector_lines(vectors.drop_last()) + "\n"@ + vector_line(vectors.last())
    }
}

/// The text of a graph.
pub open spec fn rendering(
    timestep: i32,
    energy: Seq<char>,
    nuclear_charges: Seq<i32>,
    coords: Seq<Seq<Seq<char>>>,
    forces: Seq<Seq<Seq<char>>>,
) -> Seq<char> {
    "Graph at Timestep:\n--------------------\nTimestep: "@ + integer_text(timestep as int)
        + "\nEnergy: "@ + energy + "\nNuclear Charges:\n["@ + listed(nuclear_charges)
        + "]\nCoordinates:\n"@ + vector_lines(coords) + "\nForces:\n"@ + vector_lines(forces)
        + "\n"@
}

/// The texts of the components of each of `vectors`.
pub open spec fn component_texts(vectors: Seq<[String; 3]>) -> Seq<Seq<Seq<char>>> {
    vectors.map_values(|v: [String; 3]| v@.map_values(|component: String| component@))
}

/// Appends the line of the vector `v` to `text`.
fn push_vector_line(text: &mut String, v: &[String; 3])
    ensures
        final(text)@ == old(text)@ + vector_line(v@.map_values(|component: String| component@)),
{
    let ghost start = text@;
    let ghost parts = v@.map_values(|component: String| component@);
    text.append("  [");
    text.append(v[0].as_str());
    text.append(", ");
    text.append(v[1].as_str());
    text.append(", ");
    text.append(v[2].as_str());
    text.append("]");
    proof {
        assert(text@ =~= start + vector_line(parts));
    }
}

/// Writes a graph out as text.
///
/// `energy` and the components of `coords` and `forces` are written as they
/// are given.
pub fn render_graph(
    timestep: i32,
    energy: &str,
    nuclear_charges: &Vec<i32>,
    coords: &Vec<[String; 3]>,
    forces: &Vec<[String; 3]>,
) -> (text: String)
    ensures
        text@ == rendering(
            timestep,
            energy@,
            nuclear_charges@,
            component_texts(coords@),
            component_texts(forces@),
        ),
{
    let mut text = String::new();
    text.append("Graph at Timestep:\n--------------------\nTimestep: ");
    push_integer(&mut text, timestep);
    text.append("\nEnergy: ");
    text.append(energy);
    text.append("\nNuclear Charges:\n[");
    push_list(&mut text, nuclear_charges);
    text.append("]\nCoordinates:\n");
    push_vector_lines(&mut text, coords);
    text.append("\nForces:\n");
    push_vector_lines(&mut text, forces);
    text.append("\n");
    proof {
        assert(text@ =~= rendering(
            timestep,
            energy@,
            nuclear_charges@,
            component_texts(coords@),
            component_texts(forces@),
        ));
    }
    text
}

/// Appends the texts of `items`, with `, ` between them, to `text`.
fn push_list(text: &mut String, items: &Vec<i32>)
    ensures
        final(text)@ == old(text)@ + listed(items@),
{
    let ghost start = text@;
    let mut i: usize = 0;
    proof {
        assert(start =~= start + listed(items@.take(0)));
    }
    while i < items.len()
        invariant
            i <= items.len(),
            text@ == start + listed(items@.take(i as int)),
        decreases items.len() - i,
    {
        let ghost before = items@.take(i as int);
        let ghost next = items@.take(i + 1);
        proof {
            assert(next.drop_last() == before);
            assert(next.last() == items@[i as int]);
        }
        if i > 0 {
            text.append(", ");
        }
        push_integer(text, items[i]);
        proof {
            assert(text@ =~= start + listed(next));
        }
        i += 1;
    }
    proof {
        assert(items@.take(items.len() as int) == items@);
    }
}

/// Appends the lines of `vectors` to `text`.
fn push_vector_lines(text: &mut String, vectors: &Vec<[String; 3]>)
    ensures
        final(text)@ == old(text)@ + vector_lines(component_texts(vectors@)),
{
    let ghost start = text@;
    let ghost all = component_texts(vectors@);
    let mut i: usize = 0;
    proof {
        assert(start =~= start + vector_lines(all.take(0)));
    }
    while i < vectors.len()
        invariant
            i <= vectors.len(),
            all == component_texts(vectors@),
            text@ == start + vector_lines(all.take(i as int)),
        decreases vectors.len() - i,
    {
        let ghost before = all.take(i as int);
        let ghost next = all.take(i + 1);
        proof {
            assert(next.drop_last() == before);
            assert(next.last() == all[i as int]);
        }
        if i > 0 {
            text.append("\n");
        }
        push_vector_line(text, &vectors[i]);
        proof {
            assert(text@ =~= start + vector_lines(next));
        }
        i += 1;
    }
    proof {
        assert(all.take(vectors.len() as int) == all);
    }
}

} // verus!
