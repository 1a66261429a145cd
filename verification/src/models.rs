//! Model files: MTL material libraries, the store of parsed materials, and
//! Wavefront OBJ meshes.
pub mod mtl_loader;
pub mod model_store;
pub mod obj_model_loader;
