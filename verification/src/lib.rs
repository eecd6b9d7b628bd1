//! Loading a molecular-dynamics trajectory from a table of comma-separated
//! values.
//!
//! The table has one row for each time step. Its first two columns are the
//! time step and the total energy. The other columns come in three kinds,
//! told apart by the end of their names: the nuclear charge of an atom, its
//! position, and the force on it. How many atoms there are is read off the
//! header. Positions and forces are vectors of three numbers written in one
//! cell, as in `[0.1, -2.5, 3e-2]`.
//!
//! `columns` sorts the columns of a header into the three kinds, `vector`
//! reads a vector cell, `record` reads a row into a graph, `load` reads all
//! rows, and `data` holds the graphs of a trajectory as a data set. `table`
//! reads the table from bytes, `render` writes a graph out as text, and
//! `number`, `text` and `scan` are what the others are built on.
//!
//! Numbers with a fraction are kept as they are written, as `FloatLiteral`:
//! this library reads and checks their text and leaves their values to its
//! callers.

pub mod columns;
pub mod data;
pub mod load;
pub mod number;
pub mod record;
pub mod render;
pub mod scan;
pub mod table;
pub mod text;
pub mod vector;
