//! Channels between processes.

pub mod circular_buffer;
pub mod circularbuffer;
pub mod epoll;
pub mod inner;
pub mod io;
pub mod link;
pub mod listener;
pub mod reactor;
pub mod select;
pub mod serialize;
pub mod tcp_linux;
pub mod waiters;
