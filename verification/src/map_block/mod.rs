//! The mapblock format: one 16 x 16 x 16 block of nodes as it is stored in a
//! map database, in the block versions 25 to 29.

pub mod compression;
pub mod id_map;
pub mod map_block;
pub mod metadata;
pub mod name_id_map;
pub mod node_data;
pub mod node_timer;
pub mod static_object;
pub mod wire;

pub use compression::ZlibContainer;
pub use id_map::IdMap;
pub use map_block::is_valid_generated;
pub use map_block::MapBlock;
pub use metadata::MetaVar;
pub use metadata::NodeMetadata;
pub use metadata::NodeMetadataList;
pub use name_id_map::NameIdMap;
pub use node_data::NodeData;
pub use node_timer::deserialize_timers;
pub use node_timer::serialize_timers;
pub use node_timer::NodeTimer;
pub use node_timer::NodeTimerList;
pub use static_object::deserialize_objects;
pub use static_object::serialize_objects;
pub use static_object::LuaEntityData;
pub use static_object::StaticObject;
pub use static_object::StaticObjectList;
pub use wire::ByteReader;
pub use wire::MapBlockError;
