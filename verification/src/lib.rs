//! Verified core of the hipfire inference runtime.

pub mod assemble;
pub mod batch;
pub mod binary64;
pub mod carriers;
pub mod chat;
pub mod cohere2moe;
pub mod draft;
pub mod dspark;
pub mod dspark_body;
pub mod dtype;
pub mod e8;
pub mod hfq;
pub mod json;
pub mod lanes;
pub mod llama;
pub mod load_plan;
pub mod loader;
pub mod maple;
pub mod maple_config;
pub mod maple_convert;
pub mod maple_dump;
pub mod maple_forward;
pub mod maple_load;
pub mod maple_state;
pub mod model;
pub mod order;
pub mod qwen2;
pub mod reap;
pub mod reap_overlay;
pub mod safetensors_index;
pub mod slot_request;
pub mod slot_stream;
pub mod slots;
pub mod spec_build;
pub mod spec_ngram;
pub mod superop;
pub mod text;
pub mod turn_cache;
pub mod unload;
pub mod vision;
pub mod vision_config;
pub mod vision_image;
pub mod vision_layout;
pub mod vision_plan;
pub mod vision_prepare;
pub mod vision_tiles;
