//! A bot that adds articles to a wiki's content repository from issues and
//! pull requests. Every change to the repository happens under one lock,
//! kept in a remote cell that independent invocations of the bot share.
//!
//! The bot's decisions stand here, verified: which events are
//! contributions, how an issue's front matter is read and stamped, where
//! an article is written, which pull requests may be merged, and the
//! protocol that acquires the lock. The caller performs each step that
//! these decisions ask for against the platform and the repository.
//!
//! Beside the bot stand the data of the wiki's generators: the markdown
//! files that the translator reads, and the articles and search index of
//! the generated site.
pub mod text;
pub mod front_matter;
pub mod stamping;
pub mod paths;
pub mod diff;
pub mod lock;
pub mod handler;
pub mod translator;
pub mod site;
