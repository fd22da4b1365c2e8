//! Deterministic stand-in translator so the whole pipeline can be exercised without a
//! helper process, language assets or network access.

use crate::error::Result;
use crate::text;
use crate::translation::Translator;
use vstd::prelude::*;

verus! {

/// Marks the text instead of translating it.
#[derive(Debug, Clone, Copy, PartialEq, Eq, Structural)]
pub struct MockTranslator;

impl Translator for MockTranslator {
    open spec fn provider(&self) -> Seq<char> {
        "mock"@
    }

    fn name(&self) -> (name: &'static str) {
        "mock"
    }

    fn translate(&mut self, text: &str) -> (translated: Result<String>)
        ensures
            translated matches Ok(marked) && marked@ == "[mock-zh] "@ + text@,
            *final(self) == *old(self),
    {
        Ok(text::appended("[mock-zh] ", text))
    }
}

} // verus!
