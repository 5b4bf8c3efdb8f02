//! A sparse-set component storage.
//!
//! The storage keeps, for a component type `T`, a dense packed table of live
//! `(EntityId, T)` pairs with constant-time membership test, insertion,
//! removal and lookup by entity.  Three optional pack modes reorder the dense
//! region to group entities for multi-storage iteration and to record change
//! events since the last reset.

pub mod entity;
pub mod laws;
pub mod model;
pub mod pack;
pub mod storage;
pub mod window;

pub use entity::EntityId;
pub use pack::{LoosePack, Pack, PackInfo, TightPack, UpdatePack};
pub use storage::SparseSet;
pub use window::{Window, WindowMut};
