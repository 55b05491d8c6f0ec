pub mod secondary_index;
