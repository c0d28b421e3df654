//! Automatic hostnames for daemons.
//!
//! Every daemon that configures a `port` gets a hostname derived from where
//! its configuration lives, resolved right to left against a registry of
//! projects:
//!
//! ```text
//! <daemon>.<worktree>.<project>.<tld>   daemon in a linked git worktree
//! <daemon>.<project>.<tld>              daemon in the primary checkout
//! <worktree>.<project>.<tld>            stack page (not a daemon)
//! <project>.<tld>                       project page (not a daemon)
//! ```
pub mod labels;
pub mod registry;
pub mod checkout;
pub mod assemble;
