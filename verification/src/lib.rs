//! Dense matrices over arbitrary-precision floats: the exact binary codec for
//! single values, the column-major matrix container, the whole-matrix byte
//! format with its checksum trailer, and the control of the iterative solvers.
pub mod domain;
pub mod float;
pub mod float_serializer;
pub mod io_proofs;
pub mod rugmat;
pub mod rugmat_io;
pub mod solver;
