//! The logic of a desktop portal backend: screen cast and screenshot requests, the damage and
//! pixel formats of captured frames, buffer negotiation, and the dialogue with the shell.
//!
//! Everything here works on plain values. Sockets, file descriptors, D-Bus objects and device
//! handles belong to the program around the library.

pub mod buffers;
pub mod bytes;
pub mod capture;
pub mod cast;
pub mod config;
pub mod damage;
pub mod formats;
pub mod geometry;
pub mod image;
pub mod pod;
pub mod portal;
pub mod screen_cast;
pub mod screenshot;
pub mod screenshot_portal;
pub mod search;
pub mod shell;
pub mod stream;
pub mod stream_formats;
pub mod text;
pub mod uri;
