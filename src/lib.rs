//! Wishlist matching for collectible-card announcements: text extractors,
//! search-key normalization, an in-memory wishlist registry with batched
//! lookups, and the reaction-driven claim loop.

pub mod text;
pub mod normalize;
pub mod extract;
pub mod registry;
pub mod claim;
pub mod text_util;
pub mod logger;
pub mod paging;
