pub mod alignment;
pub mod count;
pub mod arithmetic_errors;
pub mod aligned;
pub mod merge;
pub mod nonzero;
pub mod units;
pub mod partition;
pub mod bounds;
pub mod inclusive_bounds;
pub mod layout;
pub mod lower_bounded;
pub mod unused_ram;
pub mod global_alloc;
pub mod affix2;
pub mod affix;
pub mod affix3;
pub mod aligned_size;
pub mod bytes;
pub mod unmapped_anonymous_pages;
pub mod affixed_ram;
