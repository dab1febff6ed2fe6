pub mod text;
pub mod uniq;
pub mod laws;
pub mod head;
pub mod cat;
pub mod wc;
pub mod find;
