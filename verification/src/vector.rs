//! Vector cells: one cell of the table that holds the three components of a
//! position or of a force, as in `[0.1, -2.5, 3e-2]`.
//!
//! The brackets at both ends of the cell are taken away, however many there
//! are. What is left is split at its commas, and each piece is trimmed of
//! white space. The cell holds a vector if there are three pieces and each is
//! a floating-point literal.

use crate::number::{is_float_literal, FloatLiteral};
use crate::scan::{first_false, lemma_first_false_found, lemma_first_false_unique};
use crate::text::{
    chars_of, lead, lemma_lead_run, quote, quoted, skip_leading, split_commas, text_of,
    trim_range, trimmed, CharClass,
};
use vstd::prelude::*;
use vstd::string::StringExecFns;

verus! {

/// Why a cell holds no vector.
#[derive(Clone, Debug, PartialEq, Eq)]
pub enum VectorError {
    /// All components are numbers, but there are not three of them. `text` is
    /// the cell without its brackets.
    WrongCount { text: String },
    /// `component` is the first component that is not a number. `text` is the
    /// cell without its brackets.
    NotNumeric { text: String, component: String },
}

/// What a `VectorError` says, with texts as sequences of characters.
pub enum VectorFault {
    WrongCount { text: Seq<char> },
    NotNumeric { text: Seq<char>, component: Seq<char> },
}

impl View for VectorError {
    type V = VectorFault;

    open spec fn view(&self) -> VectorFault {
        match *self {
            VectorError::WrongCount { text } => VectorFault::WrongCount { text: text@ },
            VectorError::NotNumeric { text, component } => VectorFault::NotNumeric {
                text: text@,
                component: component@,
            },
        }
    }
}

/// What a `VectorFault` says in words. A component that is not a number is
/// described as the standard library describes a float that it cannot parse:
/// as empty, or as invalid.
pub open spec fn fault_text(fault: VectorFault) -> Seq<char> {
    match fault {
        VectorFault::WrongCount { text } => "Field does not have 3 components: "@ + quoted(text),
        VectorFault::NotNumeric { text, component } => {
            let kind = if component.len() == 0 {
                "Empty"@
            } else {
                "Invalid"@
            };
            "Error parsing field "@ + quoted(text) + ": ParseFloatError { kind: "@ + kind + " }"@
        },
    }
}

impl VectorError {
    /// The error in words.
    pub fn message(&self) -> (text: String)
        ensures
            text@ == fault_text(self@),
    {
        match self {
            VectorError::WrongCount { text } => {
                let mut message = String::from_str("Field does not have 3 components: ");
                message.append(quote(text.as_str()).as_str());
                message
            },
            VectorError::NotNumeric { text, component } => {
                let mut message = String::from_str("Error parsing field ");
                message.append(quote(text.as_str()).as_str());
                message.append(": ParseFloatError { kind: ");
                if component.as_str().is_empty() {
                    message.append("Empty");
                } else {
                    message.append("Invalid");
                }
                message.append(" }");
                message
            },
        }
    }
}

/// The pieces of `s` between its commas, each trimmed of white space.
pub open spec fn pieces(s: Seq<char>) -> Seq<Seq<char>> {
    split_commas(s).map_values(|piece: Seq<char>| trimmed(piece, CharClass::Space))
}

/// The components of a cell: the pieces of the cell without its brackets.
pub open spec fn components(cell: Seq<char>) -> Seq<Seq<char>> {
    pieces(trimmed(cell, CharClass::Bracket))
}

/// For each of `parts`, whether it is a floating-point literal.
pub open spec fn numeric(parts: Seq<Seq<char>>) -> Seq<bool> {
    parts.map_values(|part: Seq<char>| is_float_literal(part))
}

/// The vector that a cell holds, as the texts of its three components, or
/// why it holds none. A component that is not a number is reported before a
/// wrong number of components.
pub open spec fn vector_of(cell: Seq<char>) -> Result<Seq<Seq<char>>, VectorFault> {
    let text = trimmed(cell, CharClass::Bracket);
    let parts = components(cell);
    let bad = first_false(numeric(parts));
    if bad < parts.len() {
        Err(VectorFault::NotNumeric { text, component: parts[bad] })
    } else if parts.len() != 3 {
        Err(VectorFault::WrongCount { text })
    } else {
        Ok(parts)
    }
}

/// The texts of the three components of `v`.
pub open spec fn vector_view(v: [FloatLiteral; 3]) -> Seq<Seq<char>> {
    v@.map_values(|literal: FloatLiteral| literal@)
}

/// A cell holds a vector exactly where it has three components and each is
/// a floating-point literal, and the vector is then those components. Where
/// it holds none, the error tells the two reasons apart: `NotNumeric` names a
/// component that is not a literal, and `WrongCount` is given only where all
/// components are literals.
pub proof fn lemma_vector_exactly(cell: Seq<char>)
    ensures
        vector_of(cell) is Ok <==> components(cell).len() == 3 && forall|i: int|
            0 <= i < 3 ==> is_float_literal(#[trigger] components(cell)[i]),
        vector_of(cell) matches Ok(parts) ==> parts == components(cell),
        vector_of(cell) matches Err(VectorFault::NotNumeric { component, .. })
            ==> components(cell).contains(component) && !is_float_literal(component),
        vector_of(cell) matches Err(VectorFault::WrongCount { .. }) ==> components(cell).len() != 3
            && forall|i: int|
            0 <= i < components(cell).len() ==> is_float_literal(#[trigger] components(cell)[i]),
{
    let parts = components(cell);
    let flags = numeric(parts);
    lemma_first_false_found(flags);
    let bad = first_false(flags);
    if bad < parts.len() {
        assert(!flags[bad]);
        assert(parts.contains(parts[bad]));
        if parts.len() == 3 && forall|i: int| 0 <= i < 3 ==> is_float_literal(#[trigger] parts[i]) {
            assert(is_float_literal(parts[bad]));
        }
    } else {
        assert forall|i: int| 0 <= i < parts.len() implies is_float_literal(
            #[trigger] parts[i],
        ) by {
            assert(flags[i]);
        }
    }
}

/// The pieces of a text are the first piece and then, if a comma follows it,
/// the pieces of what stands behind that comma.
pub proof fn lemma_pieces_unfold(s: Seq<char>)
    ensures
        ({
            let end = lead(s, CharClass::NotComma) as int;
            let head = trimmed(s.take(end), CharClass::Space);
            pieces(s) == if end < s.len() {
                seq![head] + pieces(s.skip(end + 1))
            } else {
                seq![head]
            }
        }),
{
    let end = lead(s, CharClass::NotComma) as int;
    let head = trimmed(s.take(end), CharClass::Space);
    lemma_lead_run(s, CharClass::NotComma);
    if end < s.len() {
        assert(pieces(s) =~= seq![head] + pieces(s.skip(end + 1)));
    } else {
        assert(s.take(end) == s);
        assert(pieces(s) =~= seq![head]);
    }
}

/// Reads a vector cell.
///
/// Returns the three components where the cell holds a vector, else the
/// reason why it does not, as `vector_of` gives it.
pub fn parse_vector_field(value: &str) -> (r: Result<[FloatLiteral; 3], VectorError>)
    ensures
        match vector_of(value@) {
            Ok(parts) => r matches Ok(v) && vector_view(v) == parts,
            Err(fault) => r matches Err(e) && e@ == fault,
        },
{
    let chars = chars_of(value);
    let (a, b) = trim_range(&chars, 0, chars.len(), CharClass::Bracket);
    let ghost inner = chars@.subrange(a as int, b as int);
    proof {
        assert(chars@.subrange(0, chars.len() as int) == chars@);
        assert(inner.skip(0) == inner);
    }
    let mut kept: Vec<FloatLiteral> = Vec::new();
    let mut passed: usize = 0;
    let mut pos: usize = a;
    let ghost mut done: Seq<Seq<char>> = Seq::empty();
    loop
        invariant
            a <= pos <= b <= chars.len(),
            chars@ == value@,
            inner == chars@.subrange(a as int, b as int),
            inner == trimmed(value@, CharClass::Bracket),
            pieces(inner) == done + pieces(inner.skip(pos - a)),
            forall|j: int| 0 <= j < done.len() ==> is_float_literal(#[trigger] done[j]),
            passed == done.len() <= pos - a,
            kept.len() == if passed < 3 { passed } else { 3 },
            forall|j: int| 0 <= j < kept.len() ==> (#[trigger] kept@[j])@ == done[j],
        decreases b - pos,
    {
        let ghost rest = inner.skip(pos - a);
        let end = skip_leading(&chars, pos, b, CharClass::NotComma);
        let (lo, hi) = trim_range(&chars, pos, end, CharClass::Space);
        let ghost piece = chars@.subrange(lo as int, hi as int);
        let ghost parts = pieces(inner);
        proof {
            assert(rest == chars@.subrange(pos as int, b as int));
            assert(rest.take(end - pos) == chars@.subrange(pos as int, end as int));
            lemma_pieces_unfold(rest);
            if end < b {
                assert(rest.skip(end - pos + 1) == inner.skip(end + 1 - a));
            }
        }
        match FloatLiteral::read(&chars, lo, hi) {
            None => {
                let text = text_of(&chars, a, b);
                let component = text_of(&chars, lo, hi);
                proof {
                    lemma_first_false_unique(numeric(parts), done.len() as int);
                }
                return Err(VectorError::NotNumeric { text, component });
            },
            Some(literal) => {
                if passed < 3 {
                    kept.push(literal);
                }
            },
        }
        proof {
            done = done.push(piece);
        }
        if end == b {
            proof {
                lemma_first_false_unique(numeric(parts), parts.len() as int);
            }
            if passed != 2 {
                let text = text_of(&chars, a, b);
                return Err(VectorError::WrongCount { text });
            }
            let z = kept.pop().unwrap();
            let y = kept.pop().unwrap();
            let x = kept.pop().unwrap();
            return Ok([x, y, z]);
        }
        passed += 1;
        pos = end + 1;
    }
}

} // verus!
