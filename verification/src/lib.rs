//! Dew's host data model, without the machine around it.
use vstd::prelude::*;

pub mod agenda;
pub mod answers;
pub mod bindings;
pub mod cascade;
pub mod collection;
pub mod connection;
pub mod content;
pub mod course;
pub mod coverage;
pub mod deeds;
pub mod dom;
pub mod enums;
pub mod extensions;
pub mod fault;
pub mod flags;
pub mod framework;
pub mod gallery;
pub mod guest;
pub mod handles;
pub mod holds;
pub mod input;
pub mod installed;
pub mod instance;
pub mod kept;
pub mod keyed;
pub mod layout;
pub mod library;
pub mod looks;
pub mod made;
pub mod members;
pub mod names;
pub mod number;
pub mod notes;
pub mod numbered;
pub mod operations;
pub mod paint;
pub mod places;
pub mod pointing;
pub mod ranked;
pub mod reflection;
pub mod render;
pub mod scalar;
pub mod signal;
pub mod style;
pub mod table;
pub mod taken;
pub mod text;
pub mod tree;
pub mod value;
pub mod vocabulary;
pub mod world;

verus! {

} // verus!
