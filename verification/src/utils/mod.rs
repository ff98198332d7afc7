pub mod cache;
pub mod exclusion;
pub mod le;
pub mod mmap;
pub mod monaei_cache;
pub mod semaphore;
pub mod text;

pub use cache::Cache;
pub use mmap::Mmap;
pub use semaphore::Semaphore;
