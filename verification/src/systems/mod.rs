//! The maintenance tracker: habits whose neglect accrues as a deficit, which is computed
//! from the log of their sessions each time it is asked for.

pub mod adherence;
pub mod adherence_laws;
pub mod calendar;
pub mod keys;
pub mod model;
pub mod model_laws;
pub mod pager;
pub mod pager_laws;
pub mod records;
pub mod request_laws;
pub mod scalar;
pub mod sessions;
pub mod steadiness;
pub mod tick;
pub mod tracks;
pub mod view_laws;
pub mod views;
