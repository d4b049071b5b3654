//! Intermediate representation of EV3 bytecode images: data types,
//! parameters, instructions, blocks and objects, with verified accessors,
//! size computations, instruction traversal and textual rendering.

pub mod data_type;
pub mod param;
pub mod program;
pub mod render;
pub mod text;
pub mod traversal;

pub use data_type::{DataType, ParamType};
pub use param::{ParamValue, Parameter};
pub use program::{Block, Image, Instruction, Object, Opcode};
pub use text::{Glyph, Piece, TextOut};
pub use traversal::{ObjectInstrIter, ObjectInstrIterMut};
