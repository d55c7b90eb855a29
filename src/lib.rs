pub mod page_blob_random_access;
pub mod page_blob_utils;
pub mod pages_cache;
