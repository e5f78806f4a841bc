pub mod info;
