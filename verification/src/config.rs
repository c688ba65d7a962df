//! Matching configuration: ordered, named step lists and their merge rules.
//!
//! A configuration holds one ordered step list for function-level matching
//! and one for basic-block-level matching.  Overriding a list is tolerant:
//! an override whose list is empty or repeats a name is ignored and the
//! previous list is kept, so a damaged configuration tier degrades the merge
//! instead of aborting it.

use vstd::prelude::*;

verus! {

/// One named matching strategy entry of a configured pipeline.
pub struct MatchingStep {
    pub name: String,
    pub enabled: bool,
}

impl MatchingStep {
    /// What a step entry says: its name and whether it is enabled.
    pub open spec fn entry(self) -> (Seq<char>, bool) {
        (self.name@, self.enabled)
    }
}

impl Clone for MatchingStep {
    fn clone(&self) -> (r: Self)
        ensures
            r.entry() == self.entry(),
    {
        MatchingStep { name: self.name.clone(), enabled: self.enabled }
    }
}

/// The entries of a step list, in order.
pub open spec fn entries(list: Seq<MatchingStep>) -> Seq<(Seq<char>, bool)> {
    list.map(|i: int, s: MatchingStep| s.entry())
}

/// A step list is valid when it is non-empty and no name repeats.
pub open spec fn valid_step_list(list: Seq<MatchingStep>) -> bool {
    &&& list.len() > 0
    &&& forall|i: int, j: int|
        0 <= i < j < list.len() ==> list[i].name@ != list[j].name@
}

/// The matching configuration: an ordered function-level step list and an
/// ordered basic-block-level step list.
pub struct Config {
    pub function_matching: Vec<MatchingStep>,
    pub basic_block_matching: Vec<MatchingStep>,
}

impl Config {
    /// Both step lists, as entry sequences.
    pub open spec fn entries(self) -> (Seq<(Seq<char>, bool)>, Seq<(Seq<char>, bool)>) {
        (entries(self.function_matching@), entries(self.basic_block_matching@))
    }
}

fn clone_steps(list: &Vec<MatchingStep>) -> (r: Vec<MatchingStep>)
    ensures
        entries(r@) == entries(list@),
{
    let mut r: Vec<MatchingStep> = Vec::new();
    let mut i: usize = 0;
    while i < list.len()
        invariant
            i <= list@.len(),
            r@.len() == i,
            forall|k: int| 0 <= k < i ==> (#[trigger] r@[k]).entry() == list@[k].entry(),
        decreases list@.len() - i,
    {
        r.push(list[i].clone());
        i = i + 1;
    }
    proof {
        assert(entries(r@) =~= entries(list@));
    }
    r
}

/// Decides the validity of a step list: non-empty and no repeated name.
pub fn step_list_is_valid(list: &Vec<MatchingStep>) -> (r: bool)
    ensures
        r == valid_step_list(list@),
{
    if list.len() == 0 {
        return false;
    }
    let mut i: usize = 0;
    while i < list.len()
        invariant
            i <= list@.len(),
            list@.len() > 0,
            forall|p: int, q: int| 0 <= p < q < i ==> list@[p].name@ != list@[q].name@,
        decreases list@.len() - i,
    {
        let mut j: usize = 0;
        while j < i
            invariant
                j <= i < list@.len(),
                forall|q: int| 0 <= q < j ==> list@[q].name@ != list@[i as int].name@,
            decreases i - j,
        {
            if list[j].name == list[i].name {
                return false;
            }
            j = j + 1;
        }
        i = i + 1;
    }
    true
}

/// Merges the step lists of `from` into `config`.
///
/// A list of `from` replaces the corresponding list of `config` only when it
/// is valid (non-empty, unique names); otherwise the previous list is kept.
pub fn merge_into(from: &Config, config: &mut Config)
    ensures
        entries(final(config).function_matching@) == (if valid_step_list(
            from.function_matching@,
        ) {
            entries(from.function_matching@)
        } else {
            entries(old(config).function_matching@)
        }),
        entries(final(config).basic_block_matching@) == (if valid_step_list(
            from.basic_block_matching@,
        ) {
            entries(from.basic_block_matching@)
        } else {
            entries(old(config).basic_block_matching@)
        }),
{
    if step_list_is_valid(&from.function_matching) {
        config.function_matching = clone_steps(&from.function_matching);
    }
    if step_list_is_valid(&from.basic_block_matching) {
        config.basic_block_matching = clone_steps(&from.basic_block_matching);
    }
}

/// What layered merging leaves as the function-level list: the last valid
/// override, or `base` when no override is valid.
pub open spec fn merged_function_entries(
    base: Seq<MatchingStep>,
    overlays: Seq<Config>,
) -> Seq<(Seq<char>, bool)>
    decreases overlays.len(),
{
    if overlays.len() == 0 {
        entries(base)
    } else if valid_step_list(overlays.last().function_matching@) {
        entries(overlays.last().function_matching@)
    } else {
        merged_function_entries(base, overlays.drop_last())
    }
}

/// What layered merging leaves as the basic-block-level list.
pub open spec fn merged_basic_block_entries(
    base: Seq<MatchingStep>,
    overlays: Seq<Config>,
) -> Seq<(Seq<char>, bool)>
    decreases overlays.len(),
{
    if overlays.len() == 0 {
        entries(base)
    } else if valid_step_list(overlays.last().basic_block_matching@) {
        entries(overlays.last().basic_block_matching@)
    } else {
        merged_basic_block_entries(base, overlays.drop_last())
    }
}

/// Applies a sequence of override configurations to `config`, in order.
///
/// Each override's lists are merged as in [`merge_into`]; an invalid list in
/// an override is skipped, never an error.  Sources that failed to parse are
/// expected to have been dropped by the caller before this point.
pub fn merge_layered(config: &mut Config, overlays: &Vec<Config>)
    ensures
        entries(final(config).function_matching@) == merged_function_entries(
            old(config).function_matching@,
            overlays@,
        ),
        entries(final(config).basic_block_matching@) == merged_basic_block_entries(
            old(config).basic_block_matching@,
            overlays@,
        ),
{
    let mut i: usize = 0;
    while i < overlays.len()
        invariant
            i <= overlays@.len(),
            entries(config.function_matching@) == merged_function_entries(
                old(config).function_matching@,
                overlays@.take(i as int),
            ),
            entries(config.basic_block_matching@) == merged_basic_block_entries(
                old(config).basic_block_matching@,
                overlays@.take(i as int),
            ),
        decreases overlays@.len() - i,
    {
        merge_into(&overlays[i], config);
        proof {
            assert(overlays@.take(i + 1).drop_last() =~= overlays@.take(i as int));
            assert(overlays@.take(i + 1).last() == overlays@[i as int]);
        }
        i = i + 1;
    }
    proof {
        assert(overlays@.take(overlays@.len() as int) =~= overlays@);
    }
}

} // verus!
