//! A minimal todo-list backend core: a repository owning the authoritative
//! set of todo records, and an adapter that rewrites stored records into
//! wire-facing records carrying a public URL.

pub mod api;
pub mod text;
pub mod todo_list;
