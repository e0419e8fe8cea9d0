pub mod bit;
pub mod bit_operations;
pub mod msb_lsb_creater;
pub mod msb_lsb_reader;
