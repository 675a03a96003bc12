//! The logic of TCPROS, the ROS transport over TCP: the connection headers that
//! two nodes exchange, the packages of a topic, and the requests of a service.
//!
//! Nothing here touches a socket. A function takes the bytes that came in and
//! gives the bytes that go out, or takes what happened and gives what to do next.
pub mod channel;
pub mod error;
pub mod header;
pub mod laws;
pub mod service;
pub mod stream;
pub mod subscriber;
pub mod wire;
