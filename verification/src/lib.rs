pub mod buffers;
pub mod cache;
pub mod channels;
pub mod framer;
pub mod hardware;
pub mod hls;
pub mod http;
pub mod manager;
pub mod metrics;
pub mod paths;
pub mod playlist;
pub mod text;
pub mod transcoder;
pub mod url;
