use vstd::prelude::*;

pub mod text;
pub mod log_viewer;
pub mod theme;
pub mod text_viewer;
pub mod texture;
pub mod mesh;
pub mod gpu;
pub mod uv_edit;
pub mod texture_mgmt;
pub mod bloom;
pub mod single_instance;
pub mod export_filter;

verus! {

} // verus!
