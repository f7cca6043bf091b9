//! Payment-ingestion gateway: the ledger of acknowledged payments, the frame
//! codec spoken between the processes, the summary encoder, the fixed-shape
//! HTTP request handling and the processor arbiter.
pub mod summary;
pub mod ledger;
pub mod bytes;
pub mod codec;
pub mod frame;
pub mod query;
pub mod http;
pub mod dispatch;
pub mod worker;
pub mod amount;
