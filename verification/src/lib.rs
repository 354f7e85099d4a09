//! Reader for Portage `package.use` directives.
//!
//! Each directive line names a package atom followed by the use flags that
//! are switched on or off for it. The library turns lines of text into a
//! table from package name to the constraint that the last directive for
//! that package declared.

pub mod constraint;
pub mod text;
pub mod atom;
pub mod name_map;
pub mod flags;
pub mod package;
pub mod line;
pub mod table;
