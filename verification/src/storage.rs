pub mod buffer_pool;
pub mod page;

pub use buffer_pool::BufferPool;
pub use buffer_pool::BufferPoolError;
pub use page::Page;
pub use page::PageError;
pub use page::PageHeader;
