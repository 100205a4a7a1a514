pub mod backend;
pub mod block;
pub mod constants;
pub mod decode;
pub mod opc;
