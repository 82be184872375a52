pub mod tempfs;
