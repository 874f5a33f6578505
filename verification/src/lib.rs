//! A small peer-to-peer file drop.
//!
//! Two nodes meet through a ticket that one of them pastes, exchange cards, and send each
//! other files, each offered first and sent only where the other side accepts. A phone on
//! the same network can upload files through a page instead.
//!
//! This library holds what the file drop decides: how tickets, frames and cards are
//! written and read, what becomes of a session and of the offers in it, how a transfer is
//! counted and reported, and where every file lands. It does no input and output of its
//! own: it is handed what was read and hands back what to do.

pub mod card;
pub mod contacts;
pub mod frame;
pub mod key;
pub mod names;
pub mod network;
pub mod paths;
pub mod received;
pub mod resume;
pub mod text;
pub mod ticket;
pub mod transfer;
pub mod upload;
