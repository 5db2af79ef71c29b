//! Extensions of the routing model.

pub mod typed_actor_group_key;

pub use self::typed_actor_group_key::{create_typed_actor_groups, TypedActorGroups};
