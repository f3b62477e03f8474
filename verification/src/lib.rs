//! Sandboxed workloads: WASI components and JavaScript fetcher modules.
//!
//! The crate holds the decisions of the runtime and of the server in front of
//! it; the program around it talks to the engines, the network and the disk.

pub mod bindings;
pub mod cert;
pub mod clock;
pub mod code;
pub mod encoding;
pub mod event_loop;
pub mod fetch;
pub mod fetcher;
pub mod json;
pub mod jwt;
pub mod response;
pub mod scan;
pub mod script;
pub mod server;
pub mod tenant;
pub mod text;
pub mod wasm;
pub mod webtransport;

pub use fetcher::{
    execute_fetcher, BindingValue, FetcherConfig, FetcherMetrics, FetcherResult, JsRequest,
    ResourceLimits,
};
pub use response::JsResponse;
pub use script::execute_js;
pub use wasm::{execute_wasm, execute_wasm_streaming, Preopen, WasmConfig, WasmMetrics};
