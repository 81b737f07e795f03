//! The strategy of Go.

use vstd::prelude::*;
use crate::args::{Language, SearchMode};
use crate::search::strategy::{
    CLASS_PATTERN, FUNCTION_PATTERN, IMPORT_PATTERN, PLAIN_PATTERN, SearchStrategy, SmartMode,
    LanguageSmartMode, go_smart_template, template_for,
};

verus! {

/// The smart search of Go, where a method reads as a function and as a part
/// of its type: both are searched for.
pub struct GoSmartMode {}

impl SmartMode for GoSmartMode {
    open spec fn template(&self, term: Seq<char>) -> Seq<char> {
        go_smart_template()
    }

    fn get_pattern(&self, _term: &str) -> (res: String) {
        "(?:".to_owned().concat(CLASS_PATTERN).concat("|").concat(FUNCTION_PATTERN).concat(")")
    }
}

/// The strategy of Go.
pub(super) fn get_strategy() -> (strategy: SearchStrategy)
    ensures
        forall|mode: SearchMode, term: Seq<char>| #[trigger]
            strategy.template(mode, term) == template_for(mode, Language::Go, term),
{
    SearchStrategy::new(
        PLAIN_PATTERN,
        PLAIN_PATTERN,
        CLASS_PATTERN,
        FUNCTION_PATTERN,
        IMPORT_PATTERN,
        LanguageSmartMode::Go(GoSmartMode {  }),
    )
}

} // verus!
