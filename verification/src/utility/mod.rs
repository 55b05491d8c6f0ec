pub mod decrypter;
