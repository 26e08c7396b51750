//! What the logging facade hands over for each log call.

use crate::level::Level;
use vstd::prelude::*;

verus! {

/// The part of a record that the filter's directives look at.
#[derive(Clone, Copy, Debug)]
pub struct Metadata<'a> {
    level: Level,
    target: &'a str,
}

impl<'a> Metadata<'a> {
    pub fn new(target: &'a str, level: Level) -> (m: Self)
        ensures
            m.spec_target() == target,
            m.spec_level() == level,
    {
        Metadata { level, target }
    }

    pub closed spec fn spec_target(&self) -> &'a str {
        self.target
    }

    pub closed spec fn spec_level(&self) -> Level {
        self.level
    }

    /// The module path that the record is attributed to.
    pub fn target(&self) -> (t: &'a str)
        ensures
            t == self.spec_target(),
    {
        self.target
    }

    /// The record's severity.
    pub fn level(&self) -> (l: Level)
        ensures
            l == self.spec_level(),
    {
        self.level
    }
}

/// One record: its metadata, its message as text, and the path of the module
/// that it was logged from, where that is known.
#[derive(Clone, Copy, Debug)]
pub struct Record<'a> {
    metadata: Metadata<'a>,
    message: &'a str,
    module: Option<&'a str>,
}

impl<'a> Record<'a> {
    /// A record of which the module is not known.
    pub fn new(target: &'a str, level: Level, message: &'a str) -> (r: Self)
        ensures
            r.spec_target() == target,
            r.spec_level() == level,
            r.spec_message() == message,
            r.spec_module() is None,
    {
        Record { metadata: Metadata { level, target }, message, module: None }
    }

    /// The same record, logged from `module`.
    pub fn in_module(self, module: Option<&'a str>) -> (r: Self)
        ensures
            r.spec_target() == self.spec_target(),
            r.spec_level() == self.spec_level(),
            r.spec_message() == self.spec_message(),
            r.spec_module() == module,
    {
        Record { metadata: self.metadata, message: self.message, module }
    }

    pub closed spec fn spec_module(&self) -> Option<&'a str> {
        self.module
    }

    /// The path of the module that the record was logged from.
    pub fn module(&self) -> (m: Option<&'a str>)
        ensures
            m == self.spec_module(),
    {
        self.module
    }

    pub closed spec fn spec_target(&self) -> &'a str {
        self.metadata.target
    }

    pub closed spec fn spec_level(&self) -> Level {
        self.metadata.level
    }

    pub closed spec fn spec_message(&self) -> &'a str {
        self.message
    }

    pub fn metadata(&self) -> (m: &Metadata<'a>)
        ensures
            m.spec_target() == self.spec_target(),
            m.spec_level() == self.spec_level(),
    {
        &self.metadata
    }

    /// The module path that the record is attributed to.
    pub fn target(&self) -> (t: &'a str)
        ensures
            t == self.spec_target(),
    {
        self.metadata.target
    }

    /// The record's severity.
    pub fn level(&self) -> (l: Level)
        ensures
            l == self.spec_level(),
    {
        self.metadata.level
    }

    /// The record's message, as the content pattern sees it.
    pub fn message(&self) -> (m: &'a str)
        ensures
            m == self.spec_message(),
    {
        self.message
    }
}

} // verus!
