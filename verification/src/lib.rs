//! The host side of a speculative-decoding inference engine.
use vstd::prelude::*;

pub mod adaptive_sampler;
pub mod attention;
pub mod attention_cache;
pub mod attention_decode;
pub mod attention_flow;
pub mod attention_layer;
pub mod attention_multi_seq;
pub mod attention_prefill;
pub mod bits;
pub mod block_mgmt;
pub mod buffers;
pub mod config;
pub mod decode_flow;
pub mod dspark_attention;
pub mod dspark_block;
pub mod dspark_block_flow;
pub mod dspark_flow;
pub mod dspark_head;
pub mod dspark_loader;
pub mod dspark_module;
pub mod dspark_propose;
pub mod dspark_stage;
pub mod dumps;
pub mod flow;
pub mod gpu;
pub mod hyper_connection;
pub mod json;
pub mod kernel_args;
pub mod kv_cache;
pub mod mock;
pub mod model;
pub mod moe;
pub mod moe_flow;
pub mod mtp;
pub mod mtp_flow;
pub mod mtp_forward;
pub mod mtp_prefill;
pub mod mtp_propose;
pub mod op;
pub mod quantization;
pub mod refusal;
pub mod run;
pub mod speculative;
pub mod ssm;
pub mod text;
pub mod timed;
pub mod tool_grammar;
pub mod tool_stream;
pub mod trace;
pub mod verify_pipeline;
pub mod weights;

verus! {

} // verus!
