pub mod md5;
