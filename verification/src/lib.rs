//! Text cleaning, record preparation, paging and search planning for a
//! campground search service.

pub mod api;
pub mod facility;
pub mod html;
pub mod html_laws;
pub mod laws;
pub mod paging;
pub mod search;
pub mod text;
