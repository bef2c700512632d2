pub mod clock;
pub mod names;
pub mod news;
pub mod residents;
pub mod templates;
pub mod text;
pub mod transportation;
