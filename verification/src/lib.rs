//! HTTP/1.1 client core: request serialization, incremental response framing, redirects, uploads,
//! deadlines and connection accounting, each with a proved contract.

pub mod accounting;
pub mod backend;
pub mod chunk;
pub mod config;
pub mod control;
pub mod control_laws;
pub mod deadline;
pub mod decoder;
pub mod decoder_laws;
pub mod delivery_laws;
pub mod dispatch;
pub mod dispatch_laws;
pub mod engine;
pub mod engine_laws;
pub mod error_laws;
pub mod events;
pub mod exchange;
pub mod exchange_laws;
pub mod factory;
pub mod failure;
pub mod feed;
pub mod fields;
pub mod framing;
pub mod framing_laws;
pub mod fuzz;
pub mod head;
pub mod head_laws;
pub mod lookup;
pub mod message_laws;
pub mod origin;
pub mod origin_laws;
pub mod pending;
pub mod pool;
pub mod pool_laws;
pub mod queue_laws;
pub mod redirect;
pub mod redirect_laws;
pub mod request;
pub mod request_laws;
pub mod resolver;
pub mod resolver_laws;
pub mod settle_laws;
pub mod sink_laws;
pub mod standalone;
pub mod step;
pub mod stream;
pub mod stream_decoder;
pub mod stream_fuzz;
pub mod stream_laws;
pub mod table;
pub mod tcp;
pub mod tcp_events;
pub mod tcp_laws;
pub mod text;
pub mod text_laws;
pub mod transfer;
pub mod turn;
pub mod turn_laws;
pub mod types;
pub mod upload;
pub mod upload_laws;
