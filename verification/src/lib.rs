//! The logic of `create-dotslash`, which creates [Dotslash](https://dotslash-cli.com/) files, or
//! shell scripts that do the same, from URLs and from GitHub releases.
//!
//! - [`options`] reads what the user asks for, a [`target::Target`], and [`name`] what file names
//!   say; [`digest`] reads digests.
//! - [`http`] and [`github`] tell which [`target::Artifact`]s to download.
//! - [`fetch`] computes what there is to know about a download, [`decompress`] and [`archive`]
//!   look into archives, and [`pick`] picks the path of the binary in them.
//! - [`format`] plans the downloads and gives the output, as a [`dotslash`] file or as a [`shell`]
//!   script.
//! - [`session`] decides what to ask the user.
//!
//! What holds of several functions together is stated where they are, or in a module of laws beside
//! theirs, such as [`name_laws`].
//!
//! Nothing here reads, writes or waits: callers do that, and hand over what they got.
//!
//! [`outside`] has what is taken unproved from other crates; everything else is proved.

pub mod archive;
pub mod decompress;
pub mod digest;
pub mod dotslash;
pub mod dotslash_laws;
pub mod fetch;
pub mod format;
pub mod github;
pub mod github_laws;
pub mod http;
pub mod name;
pub mod name_laws;
pub mod options;
pub mod options_laws;
pub mod outside;
pub mod pick;
pub mod session;
pub mod shell;
pub mod shell_laws;
pub mod sort;
pub mod target;
pub mod target_laws;
pub mod text;
pub mod values;
