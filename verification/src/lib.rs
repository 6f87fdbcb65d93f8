//! The computing core of a terminal viewer of expense records: calendar
//! dates and months, the grouping and filtering of expenses by date, the
//! plots on offer, the colour palettes, and the decisions taken on input.

pub mod date;
pub mod processing;
pub mod state;
pub mod plot;
pub mod colours;
pub mod navigation;
pub mod layout;
