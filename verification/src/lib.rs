//! Verified core of a local Danbooru media workbench: tag caption
//! processing, download filename rules, media selection, captioning output
//! parsing, dataset crop geometry and the persistent task state machine.
use vstd::prelude::*;

pub mod text;
pub mod tasks;
pub mod image_processor;
pub mod danbooru_client;
pub mod vllm;
pub mod tag_manager;
pub mod similarity;
pub mod digest;
pub mod dataset_augmentation;
pub mod cl_tagger;
pub mod tool_manifest;

verus! {

} // verus!
