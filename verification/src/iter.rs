//! Lazy sequence machinery: traversal, error adapter and merge-join.

pub mod ok_iter;
pub mod rec_dir_iter;
pub mod sum_iter;
pub mod total_order;
