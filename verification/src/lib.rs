//! The rules of a chat bot that rolls dice and hands out images.
//!
//! `dice` and `sparkle` are two games of dice, played by the rules of
//! `engine`: an expression such as `3d6 d8` is read (`notation`), what it
//! asks for is rolled (`chance`), the pool of rolls is read for its best
//! effect and for its best total (`pool`), and the result is put in words
//! (`report`). `dalle` and `data` keep the price of images
//! and the accounts they are charged to. `traffic` watches over the channels
//! that are meant to stay quiet.

pub mod chance;
pub mod dalle;
pub mod data;
pub mod dice;
pub mod engine;
pub mod notation;
pub mod pool;
pub mod report;
pub mod sparkle;
pub mod text;
pub mod traffic;
