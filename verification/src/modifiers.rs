//! Modifiers: rules that adjust how the lints report on a proposal before
//! they run.

use vstd::prelude::*;

use crate::preamble::{find_field, Preamble};
use crate::snippets::Level;
use crate::text::{chars_eq, chars_of, trim, trim_str};

verus! {

/// Sets the level the lints report at when a header has a given value.
#[derive(Debug, Clone)]
pub struct SetDefaultAnnotation {
    pub name: String,
    pub value: String,
    pub annotation_level: Level,
}

impl SetDefaultAnnotation {
    /// The level after the modifier: its own when the trimmed value of the
    /// named header is `value`, the given one otherwise.
    pub open spec fn spec_modify(&self, preamble: Seq<crate::preamble::FieldView>, level: Level) -> Level {
        match find_field(preamble, self.name@) {
            Some(f) => if trim(f.value) == self.value@ {
                self.annotation_level
            } else {
                level
            },
            None => level,
        }
    }

    pub fn modify(&self, preamble: &Preamble, level: &mut Level)
        ensures
            *final(level) == self.spec_modify(preamble@, *old(level)),
    {
        let field = match preamble.by_name(self.name.as_str()) {
            Some(f) => f,
            None => return,
        };
        let value = trim_str(field.value());
        let wanted = chars_of(self.value.as_str());
        if chars_eq(value.as_slice(), wanted.as_slice()) {
            *level = self.annotation_level;
        }
    }
}

/// The modifiers that a configuration can name.
#[derive(Debug, Clone)]
pub enum DefaultModifier {
    SetDefaultAnnotation(SetDefaultAnnotation),
}

impl DefaultModifier {
    pub open spec fn spec_modify(&self, preamble: Seq<crate::preamble::FieldView>, level: Level) -> Level {
        match self {
            DefaultModifier::SetDefaultAnnotation(a) => a.spec_modify(preamble, level),
        }
    }

    pub fn modify(&self, preamble: &Preamble, level: &mut Level)
        ensures
            *final(level) == self.spec_modify(preamble@, *old(level)),
    {
        match self {
            DefaultModifier::SetDefaultAnnotation(a) => a.modify(preamble, level),
        }
    }
}

/// The level the lints report at after the first `k` modifiers, starting
/// from `level`.
pub open spec fn modified_level(mods: Seq<DefaultModifier>, preamble: Seq<crate::preamble::FieldView>, level: Level, k: int) -> Level
    decreases k,
{
    if k <= 0 {
        level
    } else {
        mods[k - 1].spec_modify(preamble, modified_level(mods, preamble, level, k - 1))
    }
}

/// The level the lints report at for a proposal: errors, unless a
/// modifier (the last that applies) says otherwise.
pub fn annotation_level(mods: &Vec<DefaultModifier>, preamble: &Preamble) -> (r: Level)
    ensures
        r == modified_level(mods@, preamble@, Level::Error, mods@.len() as int),
{
    let mut level = Level::Error;
    let mut i: usize = 0;
    while i < mods.len()
        invariant
            i <= mods@.len(),
            level == modified_level(mods@, preamble@, Level::Error, i as int),
        decreases mods@.len() - i,
    {
        mods[i].modify(preamble, &mut level);
        i += 1;
    }
    level
}

/// Modifier `m` sets level `level` when header `name` is `value`.
pub open spec fn sets_level(m: DefaultModifier, name: Seq<char>, value: Seq<char>, level: Level) -> bool {
    match m {
        DefaultModifier::SetDefaultAnnotation(a) => a.name@ == name && a.value@ == value && a.annotation_level == level,
    }
}

} // verus!
