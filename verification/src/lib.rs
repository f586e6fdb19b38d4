use vstd::prelude::*;

pub mod nn;
pub mod text;
pub mod talk;
pub mod llm;
pub mod tokenizer;
pub mod assets;
pub mod ecs;
pub mod mnist;
pub mod ui;
pub mod font_atlas;
pub mod image_header;
pub mod chunk;
pub mod chunk_mesh;

verus! {
}
