//! The nineteen performance offenses, their configuration keys and messages,
//! and the record of one detected offense.

use vstd::prelude::*;

use crate::fix::Fix;
use crate::text::str_eq;

verus! {

/// All 19 performance offense kinds.
#[derive(Debug, Clone, Copy, PartialEq, Eq, Structural, Hash, PartialOrd, Ord)]
pub enum OffenseKind {
    ShuffleFirstVsSample,
    SelectFirstVsDetect,
    SelectLastVsReverseDetect,
    ReverseEachVsReverseEach,
    KeysEachVsEachKey,
    MapFlattenVsFlatMap,
    GsubVsTr,
    SortVsSortBy,
    FetchWithArgumentVsBlock,
    HashMergeBangVsHashBrackets,
    BlockVsSymbolToProc,
    EachWithIndexVsWhile,
    IncludeVsCoverOnRange,
    ModuleEval,
    RescueVsRespondTo,
    ProcCallVsYield,
    GetterVsAttrReader,
    SetterVsAttrWriter,
    ForLoopVsEach,
}

/// The number of offense kinds.
pub open spec fn kind_count() -> nat {
    19
}

/// The position of a kind in the canonical order (the order of `OffenseKind::all`).
pub open spec fn kind_index(k: OffenseKind) -> nat {
    match k {
        OffenseKind::ShuffleFirstVsSample => 0,
        OffenseKind::SelectFirstVsDetect => 1,
        OffenseKind::SelectLastVsReverseDetect => 2,
        OffenseKind::ReverseEachVsReverseEach => 3,
        OffenseKind::KeysEachVsEachKey => 4,
        OffenseKind::MapFlattenVsFlatMap => 5,
        OffenseKind::GsubVsTr => 6,
        OffenseKind::SortVsSortBy => 7,
        OffenseKind::FetchWithArgumentVsBlock => 8,
        OffenseKind::HashMergeBangVsHashBrackets => 9,
        OffenseKind::BlockVsSymbolToProc => 10,
        OffenseKind::EachWithIndexVsWhile => 11,
        OffenseKind::IncludeVsCoverOnRange => 12,
        OffenseKind::ModuleEval => 13,
        OffenseKind::RescueVsRespondTo => 14,
        OffenseKind::ProcCallVsYield => 15,
        OffenseKind::GetterVsAttrReader => 16,
        OffenseKind::SetterVsAttrWriter => 17,
        OffenseKind::ForLoopVsEach => 18,
    }
}

/// All kinds in canonical order.
pub open spec fn all_kinds() -> Seq<OffenseKind> {
    seq![
        OffenseKind::ShuffleFirstVsSample,
        OffenseKind::SelectFirstVsDetect,
        OffenseKind::SelectLastVsReverseDetect,
        OffenseKind::ReverseEachVsReverseEach,
        OffenseKind::KeysEachVsEachKey,
        OffenseKind::MapFlattenVsFlatMap,
        OffenseKind::GsubVsTr,
        OffenseKind::SortVsSortBy,
        OffenseKind::FetchWithArgumentVsBlock,
        OffenseKind::HashMergeBangVsHashBrackets,
        OffenseKind::BlockVsSymbolToProc,
        OffenseKind::EachWithIndexVsWhile,
        OffenseKind::IncludeVsCoverOnRange,
        OffenseKind::ModuleEval,
        OffenseKind::RescueVsRespondTo,
        OffenseKind::ProcCallVsYield,
        OffenseKind::GetterVsAttrReader,
        OffenseKind::SetterVsAttrWriter,
        OffenseKind::ForLoopVsEach,
    ]
}

/// The configuration key of a kind.
pub open spec fn spec_config_key(k: OffenseKind) -> Seq<char> {
    match k {
        OffenseKind::ShuffleFirstVsSample => "shuffle_first_vs_sample"@,
        OffenseKind::SelectFirstVsDetect => "select_first_vs_detect"@,
        OffenseKind::SelectLastVsReverseDetect => "select_last_vs_reverse_detect"@,
        OffenseKind::ReverseEachVsReverseEach => "reverse_each_vs_reverse_each"@,
        OffenseKind::KeysEachVsEachKey => "keys_each_vs_each_key"@,
        OffenseKind::MapFlattenVsFlatMap => "map_flatten_vs_flat_map"@,
        OffenseKind::GsubVsTr => "gsub_vs_tr"@,
        OffenseKind::SortVsSortBy => "sort_vs_sort_by"@,
        OffenseKind::FetchWithArgumentVsBlock => "fetch_with_argument_vs_block"@,
        OffenseKind::HashMergeBangVsHashBrackets => "hash_merge_bang_vs_hash_brackets"@,
        OffenseKind::BlockVsSymbolToProc => "block_vs_symbol_to_proc"@,
        OffenseKind::EachWithIndexVsWhile => "each_with_index_vs_while"@,
        OffenseKind::IncludeVsCoverOnRange => "include_vs_cover_on_range"@,
        OffenseKind::ModuleEval => "module_eval"@,
        OffenseKind::RescueVsRespondTo => "rescue_vs_respond_to"@,
        OffenseKind::ProcCallVsYield => "proc_call_vs_yield"@,
        OffenseKind::GetterVsAttrReader => "getter_vs_attr_reader"@,
        OffenseKind::SetterVsAttrWriter => "setter_vs_attr_writer"@,
        OffenseKind::ForLoopVsEach => "for_loop_vs_each"@,
    }
}

/// The human-readable explanation of a kind.
pub open spec fn spec_explanation(k: OffenseKind) -> Seq<char> {
    match k {
        OffenseKind::ShuffleFirstVsSample => "Array#shuffle.first is slower than Array#sample"@,
        OffenseKind::SelectFirstVsDetect => "Array#select.first is slower than Array#detect"@,
        OffenseKind::SelectLastVsReverseDetect =>
            "Array#select.last is slower than Array#reverse.detect"@,
        OffenseKind::ReverseEachVsReverseEach =>
            "Array#reverse.each is slower than Array#reverse_each"@,
        OffenseKind::KeysEachVsEachKey =>
            "Hash#keys.each is slower than Hash#each_key. N.B. Hash#each_key cannot be used if the hash is modified during the each block"@,
        OffenseKind::MapFlattenVsFlatMap =>
            "Array#map.flatten(1) is slower than Array#flat_map"@,
        OffenseKind::GsubVsTr =>
            "Using tr is faster than gsub when replacing a single character in a string with another single character"@,
        OffenseKind::SortVsSortBy => "Enumerable#sort is slower than Enumerable#sort_by"@,
        OffenseKind::FetchWithArgumentVsBlock =>
            "Hash#fetch with second argument is slower than Hash#fetch with block"@,
        OffenseKind::HashMergeBangVsHashBrackets =>
            "Hash#merge! with one argument is slower than Hash#[]"@,
        OffenseKind::BlockVsSymbolToProc =>
            "Calling argumentless methods within blocks is slower than using symbol to proc"@,
        OffenseKind::EachWithIndexVsWhile => "Using each_with_index is slower than while loop"@,
        OffenseKind::IncludeVsCoverOnRange => "Use #cover? instead of #include? on ranges"@,
        OffenseKind::ModuleEval => "Using module_eval is slower than define_method"@,
        OffenseKind::RescueVsRespondTo =>
            "Don't rescue NoMethodError, rather check with respond_to?"@,
        OffenseKind::ProcCallVsYield => "Calling blocks with call is slower than yielding"@,
        OffenseKind::GetterVsAttrReader => "Use attr_reader for reading ivars"@,
        OffenseKind::SetterVsAttrWriter => "Use attr_writer for writing to ivars"@,
        OffenseKind::ForLoopVsEach => "For loop is slower than using each"@,
    }
}

/// The kind whose configuration key is `key`, if any.
pub open spec fn spec_from_config_key(key: Seq<char>) -> Option<OffenseKind> {
    if exists|k: OffenseKind| spec_config_key(k) == key {
        Some(choose|k: OffenseKind| spec_config_key(k) == key)
    } else {
        None
    }
}

impl OffenseKind {
    /// The YAML config key for this offense.
    pub fn config_key(self) -> (r: &'static str)
        ensures
            r@ == spec_config_key(self),
    {
        match self {
            OffenseKind::ShuffleFirstVsSample => "shuffle_first_vs_sample",
            OffenseKind::SelectFirstVsDetect => "select_first_vs_detect",
            OffenseKind::SelectLastVsReverseDetect => "select_last_vs_reverse_detect",
            OffenseKind::ReverseEachVsReverseEach => "reverse_each_vs_reverse_each",
            OffenseKind::KeysEachVsEachKey => "keys_each_vs_each_key",
            OffenseKind::MapFlattenVsFlatMap => "map_flatten_vs_flat_map",
            OffenseKind::GsubVsTr => "gsub_vs_tr",
            OffenseKind::SortVsSortBy => "sort_vs_sort_by",
            OffenseKind::FetchWithArgumentVsBlock => "fetch_with_argument_vs_block",
            OffenseKind::HashMergeBangVsHashBrackets => "hash_merge_bang_vs_hash_brackets",
            OffenseKind::BlockVsSymbolToProc => "block_vs_symbol_to_proc",
            OffenseKind::EachWithIndexVsWhile => "each_with_index_vs_while",
            OffenseKind::IncludeVsCoverOnRange => "include_vs_cover_on_range",
            OffenseKind::ModuleEval => "module_eval",
            OffenseKind::RescueVsRespondTo => "rescue_vs_respond_to",
            OffenseKind::ProcCallVsYield => "proc_call_vs_yield",
            OffenseKind::GetterVsAttrReader => "getter_vs_attr_reader",
            OffenseKind::SetterVsAttrWriter => "setter_vs_attr_writer",
            OffenseKind::ForLoopVsEach => "for_loop_vs_each",
        }
    }

    /// Human-readable explanation of this offense.
    pub fn explanation(self) -> (r: &'static str)
        ensures
            r@ == spec_explanation(self),
    {
        match self {
            OffenseKind::ShuffleFirstVsSample => "Array#shuffle.first is slower than Array#sample",
            OffenseKind::SelectFirstVsDetect => "Array#select.first is slower than Array#detect",
            OffenseKind::SelectLastVsReverseDetect =>
                "Array#select.last is slower than Array#reverse.detect",
            OffenseKind::ReverseEachVsReverseEach =>
                "Array#reverse.each is slower than Array#reverse_each",
            OffenseKind::KeysEachVsEachKey =>
                "Hash#keys.each is slower than Hash#each_key. N.B. Hash#each_key cannot be used if the hash is modified during the each block",
            OffenseKind::MapFlattenVsFlatMap => "Array#map.flatten(1) is slower than Array#flat_map",
            OffenseKind::GsubVsTr =>
                "Using tr is faster than gsub when replacing a single character in a string with another single character",
            OffenseKind::SortVsSortBy => "Enumerable#sort is slower than Enumerable#sort_by",
            OffenseKind::FetchWithArgumentVsBlock =>
                "Hash#fetch with second argument is slower than Hash#fetch with block",
            OffenseKind::HashMergeBangVsHashBrackets =>
                "Hash#merge! with one argument is slower than Hash#[]",
            OffenseKind::BlockVsSymbolToProc =>
                "Calling argumentless methods within blocks is slower than using symbol to proc",
            OffenseKind::EachWithIndexVsWhile => "Using each_with_index is slower than while loop",
            OffenseKind::IncludeVsCoverOnRange => "Use #cover? instead of #include? on ranges",
            OffenseKind::ModuleEval => "Using module_eval is slower than define_method",
            OffenseKind::RescueVsRespondTo =>
                "Don't rescue NoMethodError, rather check with respond_to?",
            OffenseKind::ProcCallVsYield => "Calling blocks with call is slower than yielding",
            OffenseKind::GetterVsAttrReader => "Use attr_reader for reading ivars",
            OffenseKind::SetterVsAttrWriter => "Use attr_writer for writing to ivars",
            OffenseKind::ForLoopVsEach => "For loop is slower than using each",
        }
    }

    /// All offense kinds, in canonical order.
    pub fn all() -> (r: Vec<OffenseKind>)
        ensures
            r@ == all_kinds(),
    {
        let r = vec![
            OffenseKind::ShuffleFirstVsSample,
            OffenseKind::SelectFirstVsDetect,
            OffenseKind::SelectLastVsReverseDetect,
            OffenseKind::ReverseEachVsReverseEach,
            OffenseKind::KeysEachVsEachKey,
            OffenseKind::MapFlattenVsFlatMap,
            OffenseKind::GsubVsTr,
            OffenseKind::SortVsSortBy,
            OffenseKind::FetchWithArgumentVsBlock,
            OffenseKind::HashMergeBangVsHashBrackets,
            OffenseKind::BlockVsSymbolToProc,
            OffenseKind::EachWithIndexVsWhile,
            OffenseKind::IncludeVsCoverOnRange,
            OffenseKind::ModuleEval,
            OffenseKind::RescueVsRespondTo,
            OffenseKind::ProcCallVsYield,
            OffenseKind::GetterVsAttrReader,
            OffenseKind::SetterVsAttrWriter,
            OffenseKind::ForLoopVsEach,
        ];
        assert(r@ =~= all_kinds());
        r
    }

    /// Look up an offense kind by its config key.
    pub fn from_config_key(key: &str) -> (r: Option<OffenseKind>)
        ensures
            r == spec_from_config_key(key@),
            match r {
                Some(k) => spec_config_key(k) == key@,
                None => forall|k: OffenseKind| spec_config_key(k) != key@,
            },
    {
        let kinds = Self::all();
        let mut i: usize = 0;
        while i < kinds.len()
            invariant
                kinds@ == all_kinds(),
                i <= kinds.len(),
                forall|j: int| 0 <= j < i ==> spec_config_key(#[trigger] all_kinds()[j]) != key@,
            decreases kinds.len() - i,
        {
            let k = kinds[i];
            if str_eq(k.config_key(), key) {
                proof {
                    assert forall|k2: OffenseKind| spec_config_key(k2) == key@ implies k2 == k by {
                        lemma_config_key_injective(k2, k);
                    }
                }
                return Some(k);
            }
            i = i + 1;
        }
        proof {
            assert forall|k: OffenseKind| spec_config_key(k) != key@ by {
                lemma_kind_in_all(k);
            }
        }
        None
    }

    /// The config key as an owned string (what the kind displays as).
    pub fn to_string(self) -> (r: String)
        ensures
            r@ == spec_config_key(self),
    {
        String::from_str(self.config_key())
    }

    /// The position of this kind in the canonical order.
    pub fn index(self) -> (r: usize)
        ensures
            r == kind_index(self),
            r < kind_count(),
    {
        match self {
            OffenseKind::ShuffleFirstVsSample => 0,
            OffenseKind::SelectFirstVsDetect => 1,
            OffenseKind::SelectLastVsReverseDetect => 2,
            OffenseKind::ReverseEachVsReverseEach => 3,
            OffenseKind::KeysEachVsEachKey => 4,
            OffenseKind::MapFlattenVsFlatMap => 5,
            OffenseKind::GsubVsTr => 6,
            OffenseKind::SortVsSortBy => 7,
            OffenseKind::FetchWithArgumentVsBlock => 8,
            OffenseKind::HashMergeBangVsHashBrackets => 9,
            OffenseKind::BlockVsSymbolToProc => 10,
            OffenseKind::EachWithIndexVsWhile => 11,
            OffenseKind::IncludeVsCoverOnRange => 12,
            OffenseKind::ModuleEval => 13,
            OffenseKind::RescueVsRespondTo => 14,
            OffenseKind::ProcCallVsYield => 15,
            OffenseKind::GetterVsAttrReader => 16,
            OffenseKind::SetterVsAttrWriter => 17,
            OffenseKind::ForLoopVsEach => 18,
        }
    }
}

/// Each kind's configuration key (the name that `.rubyfast.yml` and the
/// inline directives use) is the snake_case name of the rule it detects.
pub proof fn lemma_config_keys_name_their_rules(k: OffenseKind)
    ensures
        k == OffenseKind::ShuffleFirstVsSample ==> spec_config_key(k) == "shuffle_first_vs_sample"@,
        k == OffenseKind::SelectFirstVsDetect ==> spec_config_key(k) == "select_first_vs_detect"@,
        k == OffenseKind::SelectLastVsReverseDetect ==> spec_config_key(k) == "select_last_vs_reverse_detect"@,
        k == OffenseKind::ReverseEachVsReverseEach ==> spec_config_key(k) == "reverse_each_vs_reverse_each"@,
        k == OffenseKind::KeysEachVsEachKey ==> spec_config_key(k) == "keys_each_vs_each_key"@,
        k == OffenseKind::MapFlattenVsFlatMap ==> spec_config_key(k) == "map_flatten_vs_flat_map"@,
        k == OffenseKind::GsubVsTr ==> spec_config_key(k) == "gsub_vs_tr"@,
        k == OffenseKind::SortVsSortBy ==> spec_config_key(k) == "sort_vs_sort_by"@,
        k == OffenseKind::FetchWithArgumentVsBlock ==> spec_config_key(k) == "fetch_with_argument_vs_block"@,
        k == OffenseKind::HashMergeBangVsHashBrackets ==> spec_config_key(k) == "hash_merge_bang_vs_hash_brackets"@,
        k == OffenseKind::BlockVsSymbolToProc ==> spec_config_key(k) == "block_vs_symbol_to_proc"@,
        k == OffenseKind::EachWithIndexVsWhile ==> spec_config_key(k) == "each_with_index_vs_while"@,
        k == OffenseKind::IncludeVsCoverOnRange ==> spec_config_key(k) == "include_vs_cover_on_range"@,
        k == OffenseKind::ModuleEval ==> spec_config_key(k) == "module_eval"@,
        k == OffenseKind::RescueVsRespondTo ==> spec_config_key(k) == "rescue_vs_respond_to"@,
        k == OffenseKind::ProcCallVsYield ==> spec_config_key(k) == "proc_call_vs_yield"@,
        k == OffenseKind::GetterVsAttrReader ==> spec_config_key(k) == "getter_vs_attr_reader"@,
        k == OffenseKind::SetterVsAttrWriter ==> spec_config_key(k) == "setter_vs_attr_writer"@,
        k == OffenseKind::ForLoopVsEach ==> spec_config_key(k) == "for_loop_vs_each"@,
{
}

/// Each kind's explanation, as the report prints it, describes the rule it
/// detects and what to use instead.
pub proof fn lemma_explanations_describe_their_rules(k: OffenseKind)
    ensures
        k == OffenseKind::ShuffleFirstVsSample ==> spec_explanation(k) == "Array#shuffle.first is slower than Array#sample"@,
        k == OffenseKind::SelectFirstVsDetect ==> spec_explanation(k) == "Array#select.first is slower than Array#detect"@,
        k == OffenseKind::SelectLastVsReverseDetect ==> spec_explanation(k) == "Array#select.last is slower than Array#reverse.detect"@,
        k == OffenseKind::ReverseEachVsReverseEach ==> spec_explanation(k) == "Array#reverse.each is slower than Array#reverse_each"@,
        k == OffenseKind::KeysEachVsEachKey ==> spec_explanation(k) == "Hash#keys.each is slower than Hash#each_key. N.B. Hash#each_key cannot be used if the hash is modified during the each block"@,
        k == OffenseKind::MapFlattenVsFlatMap ==> spec_explanation(k) == "Array#map.flatten(1) is slower than Array#flat_map"@,
        k == OffenseKind::GsubVsTr ==> spec_explanation(k) == "Using tr is faster than gsub when replacing a single character in a string with another single character"@,
        k == OffenseKind::SortVsSortBy ==> spec_explanation(k) == "Enumerable#sort is slower than Enumerable#sort_by"@,
        k == OffenseKind::FetchWithArgumentVsBlock ==> spec_explanation(k) == "Hash#fetch with second argument is slower than Hash#fetch with block"@,
        k == OffenseKind::HashMergeBangVsHashBrackets ==> spec_explanation(k) == "Hash#merge! with one argument is slower than Hash#[]"@,
        k == OffenseKind::BlockVsSymbolToProc ==> spec_explanation(k) == "Calling argumentless methods within blocks is slower than using symbol to proc"@,
        k == OffenseKind::EachWithIndexVsWhile ==> spec_explanation(k) == "Using each_with_index is slower than while loop"@,
        k == OffenseKind::IncludeVsCoverOnRange ==> spec_explanation(k) == "Use #cover? instead of #include? on ranges"@,
        k == OffenseKind::ModuleEval ==> spec_explanation(k) == "Using module_eval is slower than define_method"@,
        k == OffenseKind::RescueVsRespondTo ==> spec_explanation(k) == "Don't rescue NoMethodError, rather check with respond_to?"@,
        k == OffenseKind::ProcCallVsYield ==> spec_explanation(k) == "Calling blocks with call is slower than yielding"@,
        k == OffenseKind::GetterVsAttrReader ==> spec_explanation(k) == "Use attr_reader for reading ivars"@,
        k == OffenseKind::SetterVsAttrWriter ==> spec_explanation(k) == "Use attr_writer for writing to ivars"@,
        k == OffenseKind::ForLoopVsEach ==> spec_explanation(k) == "For loop is slower than using each"@,
{
}

/// Every kind has a non-empty explanation.
pub proof fn lemma_explanation_non_empty(k: OffenseKind)
    ensures
        spec_explanation(k).len() > 0,
{
    match k {
        OffenseKind::ShuffleFirstVsSample => {
            reveal_strlit("Array#shuffle.first is slower than Array#sample");
        },
        OffenseKind::SelectFirstVsDetect => {
            reveal_strlit("Array#select.first is slower than Array#detect");
        },
        OffenseKind::SelectLastVsReverseDetect => {
            reveal_strlit("Array#select.last is slower than Array#reverse.detect");
        },
        OffenseKind::ReverseEachVsReverseEach => {
            reveal_strlit("Array#reverse.each is slower than Array#reverse_each");
        },
        OffenseKind::KeysEachVsEachKey => {
            reveal_strlit("Hash#keys.each is slower than Hash#each_key. N.B. Hash#each_key cannot be used if the hash is modified during the each block");
        },
        OffenseKind::MapFlattenVsFlatMap => {
            reveal_strlit("Array#map.flatten(1) is slower than Array#flat_map");
        },
        OffenseKind::GsubVsTr => {
            reveal_strlit("Using tr is faster than gsub when replacing a single character in a string with another single character");
        },
        OffenseKind::SortVsSortBy => {
            reveal_strlit("Enumerable#sort is slower than Enumerable#sort_by");
        },
        OffenseKind::FetchWithArgumentVsBlock => {
            reveal_strlit("Hash#fetch with second argument is slower than Hash#fetch with block");
        },
        OffenseKind::HashMergeBangVsHashBrackets => {
            reveal_strlit("Hash#merge! with one argument is slower than Hash#[]");
        },
        OffenseKind::BlockVsSymbolToProc => {
            reveal_strlit("Calling argumentless methods within blocks is slower than using symbol to proc");
        },
        OffenseKind::EachWithIndexVsWhile => {
            reveal_strlit("Using each_with_index is slower than while loop");
        },
        OffenseKind::IncludeVsCoverOnRange => {
            reveal_strlit("Use #cover? instead of #include? on ranges");
        },
        OffenseKind::ModuleEval => {
            reveal_strlit("Using module_eval is slower than define_method");
        },
        OffenseKind::RescueVsRespondTo => {
            reveal_strlit("Don't rescue NoMethodError, rather check with respond_to?");
        },
        OffenseKind::ProcCallVsYield => {
            reveal_strlit("Calling blocks with call is slower than yielding");
        },
        OffenseKind::GetterVsAttrReader => {
            reveal_strlit("Use attr_reader for reading ivars");
        },
        OffenseKind::SetterVsAttrWriter => {
            reveal_strlit("Use attr_writer for writing to ivars");
        },
        OffenseKind::ForLoopVsEach => {
            reveal_strlit("For loop is slower than using each");
        },
    }
}

/// Whether `--fix` can correct offenses of kind `k`: the eight kinds that
/// come with an auto-fix.
pub open spec fn fixable_kind(k: OffenseKind) -> bool {
    match k {
        OffenseKind::ShuffleFirstVsSample
        | OffenseKind::SelectFirstVsDetect
        | OffenseKind::ReverseEachVsReverseEach
        | OffenseKind::KeysEachVsEachKey
        | OffenseKind::MapFlattenVsFlatMap
        | OffenseKind::GsubVsTr
        | OffenseKind::IncludeVsCoverOnRange
        | OffenseKind::ForLoopVsEach => true,
        _ => false,
    }
}

/// Whether only offenses of the fixable kinds carry a fix.
pub open spec fn fixes_only_on_fixable_kinds(offs: Seq<OffenseView>) -> bool {
    forall|i: int| 0 <= i < offs.len() && (#[trigger] offs[i]).2 is Some ==> fixable_kind(offs[i].0)
}

pub(crate) proof fn lemma_fixable_concat(a: Seq<OffenseView>, b: Seq<OffenseView>)
    requires
        fixes_only_on_fixable_kinds(a),
        fixes_only_on_fixable_kinds(b),
    ensures
        fixes_only_on_fixable_kinds(a + b),
{
    assert forall|i: int| 0 <= i < (a + b).len() && (#[trigger] (a + b)[i]).2 is Some implies fixable_kind(
        (a + b)[i].0,
    ) by {
        if i >= a.len() {
            assert((a + b)[i] == b[i - a.len()]);
        }
    }
}

/// Every kind occurs in `all_kinds` at its own index.
pub proof fn lemma_kind_in_all(k: OffenseKind)
    ensures
        kind_index(k) < all_kinds().len(),
        all_kinds()[kind_index(k) as int] == k,
{
}

/// `all_kinds` lists each kind exactly once, at the position given by `kind_index`.
pub proof fn lemma_all_kinds_distinct()
    ensures
        all_kinds().len() == kind_count(),
        forall|i: int| 0 <= i < all_kinds().len() ==> kind_index(#[trigger] all_kinds()[i]) == i,
        forall|i: int, j: int|
            0 <= i < all_kinds().len() && 0 <= j < all_kinds().len() && i != j ==> all_kinds()[i]
                != all_kinds()[j],
{
    assert forall|i: int| 0 <= i < all_kinds().len() implies kind_index(
        #[trigger] all_kinds()[i],
    ) == i by {}
}

/// Distinct kinds have distinct configuration keys, so a key names at most
/// one kind and `from_config_key` inverts `config_key`.
pub proof fn lemma_config_key_injective(a: OffenseKind, b: OffenseKind)
    requires
        spec_config_key(a) == spec_config_key(b),
    ensures
        a == b,
{
    if a != b {
        reveal_strlit("shuffle_first_vs_sample");
        reveal_strlit("select_first_vs_detect");
        reveal_strlit("select_last_vs_reverse_detect");
        reveal_strlit("reverse_each_vs_reverse_each");
        reveal_strlit("keys_each_vs_each_key");
        reveal_strlit("map_flatten_vs_flat_map");
        reveal_strlit("gsub_vs_tr");
        reveal_strlit("sort_vs_sort_by");
        reveal_strlit("fetch_with_argument_vs_block");
        reveal_strlit("hash_merge_bang_vs_hash_brackets");
        reveal_strlit("block_vs_symbol_to_proc");
        reveal_strlit("each_with_index_vs_while");
        reveal_strlit("include_vs_cover_on_range");
        reveal_strlit("module_eval");
        reveal_strlit("rescue_vs_respond_to");
        reveal_strlit("proc_call_vs_yield");
        reveal_strlit("getter_vs_attr_reader");
        reveal_strlit("setter_vs_attr_writer");
        reveal_strlit("for_loop_vs_each");
        let x = spec_config_key(a);
        let y = spec_config_key(b);
        if x.len() == y.len() {
            assert(x[0] != y[0]);
        }
    }
}

/// Looking up a kind's configuration key gives back that kind.
pub proof fn lemma_config_key_roundtrip(k: OffenseKind)
    ensures
        spec_from_config_key(spec_config_key(k)) == Some(k),
{
    let c = choose|k2: OffenseKind| spec_config_key(k2) == spec_config_key(k);
    lemma_config_key_injective(c, k);
}

/// Offense record view: kind, location (a byte offset before lines are
/// resolved, a line afterwards), and the fix's replacements if any.
pub type OffenseView = (OffenseKind, usize, Option<Seq<(usize, usize, Seq<char>)>>);

/// A detected offense at a specific location, with an optional auto-fix.
#[derive(Debug, Clone)]
pub struct Offense {
    pub kind: OffenseKind,
    pub line: usize,
    pub fix: Option<Fix>,
}

impl View for Offense {
    type V = OffenseView;

    open spec fn view(&self) -> OffenseView {
        (
            self.kind,
            self.line,
            match self.fix {
                Some(f) => Some(f@),
                None => None,
            },
        )
    }
}

impl Offense {
    /// An offense without a fix.
    pub fn new(kind: OffenseKind, line: usize) -> (r: Self)
        ensures
            r.kind == kind,
            r.line == line,
            r.fix is None,
            r@ == (kind, line, None::<Seq<(usize, usize, Seq<char>)>>),
    {
        Offense { kind, line, fix: None }
    }

    /// An offense with a fix.
    pub fn with_fix(kind: OffenseKind, line: usize, fix: Fix) -> (r: Self)
        ensures
            r.kind == kind,
            r.line == line,
            r.fix == Some(fix),
            r@ == (kind, line, Some(fix@)),
    {
        Offense { kind, line, fix: Some(fix) }
    }

    /// An offense whose fix may be missing.
    pub fn with_optional_fix(kind: OffenseKind, line: usize, fix: Option<Fix>) -> (r: Self)
        ensures
            r.kind == kind,
            r.line == line,
            r.fix == fix,
            r@ == (kind, line, match fix {
                Some(f) => Some(f@),
                None => None,
            }),
    {
        Offense { kind, line, fix }
    }

    /// A copy of this offense.
    pub fn duplicate(&self) -> (r: Self)
        ensures
            r@ == self@,
    {
        let fix = match &self.fix {
            Some(f) => Some(f.duplicate()),
            None => None,
        };
        Offense { kind: self.kind, line: self.line, fix }
    }
}

/// The views of a list of offenses.
pub open spec fn offense_views(v: Seq<Offense>) -> Seq<OffenseView> {
    v.map_values(|o: Offense| o@)
}

/// Append one offense to a list.
pub fn push_offense(v: &mut Vec<Offense>, o: Offense)
    ensures
        offense_views(final(v)@) == offense_views(old(v)@).push(o@),
{
    let ghost ov = o@;
    v.push(o);
    assert(offense_views(v@) =~= offense_views(old(v)@).push(ov));
}

/// Append a list of offenses to another.
pub fn append_offenses(v: &mut Vec<Offense>, w: Vec<Offense>)
    ensures
        offense_views(final(v)@) == offense_views(old(v)@) + offense_views(w@),
{
    let mut w = w;
    let ghost w0 = w@;
    v.append(&mut w);
    assert(offense_views(v@) =~= offense_views(old(v)@) + offense_views(w0));
}

} // verus!
