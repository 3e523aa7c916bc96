//! The node database layer: identifiers, blocks, B-tree pages and file allocation.

pub mod ids;
pub mod allocation;
pub mod block;
pub mod level_laws;
pub mod levels;
pub mod data_tree;
pub mod subnode_tree;
pub mod btree;
pub mod block_laws;
pub mod btree_laws;
pub mod encoding;
pub mod encoding_laws;
pub mod header;
pub mod walk;
pub mod compact;
pub mod reference_laws;
pub mod amap;
pub mod mark;
pub mod map_laws;
pub mod id_laws;
pub mod trailer_laws;
pub mod commit;
pub mod commit_laws;
pub mod transaction;
pub mod transaction_laws;
pub mod copy_laws;
pub mod nodes;
pub mod template;
pub mod retention_laws;
pub mod room_laws;
pub mod limit_laws;
