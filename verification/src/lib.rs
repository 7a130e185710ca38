//! Reading and writing PRIM mesh files (the model format of the Glacier
//! engine) and porting them between the file layouts of the game versions
//! HMA, ALPHA, HM2016 and WOA.
//!
//! Every value of the format is held as the integers that are stored in the
//! file: a 32-bit float is held as its bit pattern, a packed vertex attribute
//! as the packed integers.

pub mod le;
pub mod io;
pub mod version;
pub mod object;
pub mod chunks;
pub mod vertices;
pub mod mesh;
pub mod prim;
pub mod port;
pub mod roundtrip;
pub mod reread;
