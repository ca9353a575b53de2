//! Encoding and decoding of PROFINET DCP frames: the 26-byte header, the
//! option codes and values, and the padded block lists of the identify, get
//! and set requests and responses.

pub mod block;
pub mod comm;
pub mod options;
pub mod packet;
pub mod view;
