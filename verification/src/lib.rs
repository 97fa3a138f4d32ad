//! Conversion of text between word-casing conventions.
//!
//! An input is cut into words at separators, at changes of case and at
//! digits; each word is re-cased, and the words are joined again. Every
//! convention is one row of a small table: how to case a word, what to write
//! between two words, and whether a digit after a letter opens a new word.
//!
//! The modules, leaf to root:
//!
//! - [`unicode`]: the `char` methods of `std` that the rest relies on, with
//!   the contracts that are taken on trust;
//! - [`text`]: strings to characters and back;
//! - [`boundary`]: the classes of characters and the rule that says where a
//!   word boundary lies;
//! - [`segment`]: the segmenter, and what holds of every segmentation;
//! - [`word`]: the word transforms;
//! - [`join`]: the joiner;
//! - [`convert_case`]: the table of conventions and the engine;
//! - [`shouty_kebab`], [`title`]: the conventions, as functions and as traits
//!   on `str`;
//! - [`laws`]: what holds of every conversion, some of it on a condition;
//! - [`ascii`]: the proof that ASCII inputs meet those conditions.

pub mod ascii;
pub mod boundary;
pub mod convert_case;
pub mod join;
pub mod laws;
pub mod segment;
pub mod shouty_kebab;
pub mod text;
pub mod title;
pub mod unicode;
pub mod word;

pub use crate::boundary::{classify, is_boundary, CharClass};
pub use crate::convert_case::{convert_case, transform, Case, CaseConfig, ConvertCaseOpt};
pub use crate::join::join;
pub use crate::segment::segment;
pub use crate::shouty_kebab::{to_shouty_kebab_case, ToShoutyKebabCase};
pub use crate::title::{to_title_case, ToTitleCase};
pub use crate::word::{capitalize, lowercase, transform_word, uppercase, WordTransform};
