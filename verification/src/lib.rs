//! Verified core of a sticky-collision arcade game: a disjoint-set registry
//! tracking which thrown items have been fused into clusters, a contact filter
//! that suppresses solver responses for preview ghosts, staged items and
//! already-fused clusters, and a per-tick resolver that turns collision events
//! into joint creation, cluster bookkeeping, scoring and life loss.

pub mod filter;
pub mod player;
pub mod registry;
pub mod resolver;
pub mod scene;
pub mod score;
pub mod stuck;
