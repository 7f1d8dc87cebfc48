pub mod editor;
pub mod file_buffer;
pub mod laws;
pub mod rope;
