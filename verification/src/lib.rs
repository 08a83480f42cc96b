//! Encoding text as punch cards: a character set maps each supported
//! character to a twelve-position column of holes, a card collects the
//! columns punched for a string, reads them back as text, and projects
//! them into the twelve printable rows of a card diagram.

pub mod card;
pub mod charset;
pub mod column;
pub mod errors;
