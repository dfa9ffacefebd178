//! Turns loosely structured articles of tabletop-RPG content into Markdown
//! whose numbered lists become rollable tables: a segmenter splits a
//! document into title, license prologue and body, and a transformer turns
//! every run of list items in the body into a roll-trigger line, a table
//! and an anchor label.

pub mod anchor;
pub mod article;
pub mod error;
pub mod laws;
pub mod segment;
pub mod table;
pub mod text;
pub mod transform;

pub use anchor::{dice_code, make_link};
pub use article::{
    article_role, note_name, number_and_title_from, urban_idea_special_case, ArticleRole,
    ReadmeContext, ReadmeInfo,
};
pub use error::DreadError;
pub use segment::{embedded_file_name, subdivide};
pub use table::list_to_table;
pub use transform::{parse, LineKind, ParsedChapter};
