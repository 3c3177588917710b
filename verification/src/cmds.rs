pub use crate::fetch::{fetch_aur_data, fetch_pkgbase, fetch_pkglist};
