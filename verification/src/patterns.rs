//! The pattern table: the line recognizers of the notation, as an
//! explicit immutable value.
//!
//! The table is built once when the orchestrator starts and is passed
//! down the call chain, so there is no hidden global state and no
//! lazily initialized shared table.  It carries the literal keywords
//! the recognizers look for and records the fixed order in which the
//! scanner applies the rules to a line.

use vstd::prelude::*;
use crate::grammar::{kw_class, kw_extends, kw_implements};

verus! {

/// The six recognizers of the notation.
#[derive(PartialEq, Eq, Structural, Clone, Copy, Debug)]
pub enum ClassRegex {
    Class,
    Parent,
    Interface,
    Method,
    Field,
    Parameter,
}

/// The order in which the scanner applies the rules to each line.  The
/// parameter rule is a sub-rule of the method rule and is listed last.
pub open spec fn rule_order() -> Seq<ClassRegex> {
    seq![
        ClassRegex::Class,
        ClassRegex::Parent,
        ClassRegex::Interface,
        ClassRegex::Method,
        ClassRegex::Field,
        ClassRegex::Parameter,
    ]
}

/// The compiled pattern table.
pub struct RegexHolder {
    regexes: Vec<ClassRegex>,
    kw_class: Vec<char>,
    kw_extends: Vec<char>,
    kw_implements: Vec<char>,
}

impl RegexHolder {
    /// The table holds the rules in their fixed order and the literal
    /// keywords of the declaration rules.
    pub closed spec fn wf(&self) -> bool {
        &&& self.regexes@ == rule_order()
        &&& self.kw_class@ == kw_class()
        &&& self.kw_extends@ == kw_extends()
        &&& self.kw_implements@ == kw_implements()
    }

    pub fn new() -> (r: RegexHolder)
        ensures
            r.wf(),
    {
        let mut rs: Vec<ClassRegex> = Vec::new();
        rs.push(ClassRegex::Class);
        rs.push(ClassRegex::Parent);
        rs.push(ClassRegex::Interface);
        rs.push(ClassRegex::Method);
        rs.push(ClassRegex::Field);
        rs.push(ClassRegex::Parameter);
        let mut kc: Vec<char> = Vec::new();
        kc.push('c');
        kc.push('l');
        kc.push('a');
        kc.push('s');
        kc.push('s');
        kc.push(' ');
        let mut ke: Vec<char> = Vec::new();
        ke.push('e');
        ke.push('x');
        ke.push('t');
        ke.push('e');
        ke.push('n');
        ke.push('d');
        ke.push('s');
        let mut ki: Vec<char> = Vec::new();
        ki.push('i');
        ki.push('m');
        ki.push('p');
        ki.push('l');
        ki.push('e');
        ki.push('m');
        ki.push('e');
        ki.push('n');
        ki.push('t');
        ki.push('s');
        proof {
            assert(rs@ =~= rule_order());
            assert(kc@ =~= kw_class());
            assert(ke@ =~= kw_extends());
            assert(ki@ =~= kw_implements());
        }
        RegexHolder { regexes: rs, kw_class: kc, kw_extends: ke, kw_implements: ki }
    }

    /// The rules of the table, in the order the scanner applies them.
    pub fn regexes(&self) -> (r: &Vec<ClassRegex>)
        requires
            self.wf(),
        ensures
            r@ == rule_order(),
    {
        &self.regexes
    }

    pub fn class_keyword(&self) -> (r: &Vec<char>)
        requires
            self.wf(),
        ensures
            r@ == kw_class(),
    {
        &self.kw_class
    }

    pub fn extends_keyword(&self) -> (r: &Vec<char>)
        requires
            self.wf(),
        ensures
            r@ == kw_extends(),
    {
        &self.kw_extends
    }

    pub fn implements_keyword(&self) -> (r: &Vec<char>)
        requires
            self.wf(),
        ensures
            r@ == kw_implements(),
    {
        &self.kw_implements
    }
}

} // verus!
