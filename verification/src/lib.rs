//! Page cache for an embedded storage engine.
//!
//! Three layers, leaves first:
//! - [`page`]: a fixed-size page slot with identity, pin and dirty
//!   bookkeeping over a constant-length byte buffer;
//! - [`disk`]: durable fixed-offset block storage keyed by page identifier,
//!   with a verified in-memory implementation;
//! - [`buffer_pool_manager`]: a bounded pool of page slots caching one
//!   store's pages — allocation, fetching, pinning, eviction of unpinned
//!   slots (dirty victims flushed first), and flushing on demand or at
//!   shutdown.

pub mod buffer_pool_manager;
pub mod disk;
pub mod page;
pub mod page_table;

pub use buffer_pool_manager::{BufferPoolManager, BufferPoolManagerImpl, FrameId};
pub use disk::{DiskError, DiskManager, MemDiskManager};
pub use page::{Page, PageId};
