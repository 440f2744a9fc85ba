//! Matching a file name against the rules, and the name and destination
//! that the matched rule gives it.
use vstd::prelude::*;

use crate::config::{Config, FileRule, RenameRule};
use crate::text::{
    chars_of, has_substring, has_substring_exec, names_view, push_all, replace_all,
    replace_all_exec, string_of,
};

verus! {

/// The first index from `k` on whose rule's pattern occurs in `name`.
pub open spec fn first_match_from(rules: Seq<FileRule>, name: Seq<char>, k: int) -> Option<int>
    decreases rules.len() - k,
{
    if k < 0 || k >= rules.len() {
        None
    } else if has_substring(name, rules[k].pattern@) {
        Some(k)
    } else {
        first_match_from(rules, name, k + 1)
    }
}

/// The rule that a file called `name` falls under, if any.
pub open spec fn selected_rule(rules: Seq<FileRule>, name: Seq<char>) -> Option<int> {
    first_match_from(rules, name, 0)
}

/// Whether rename step `r` changes anything in `name`.
pub open spec fn step_applies(name: Seq<char>, r: RenameRule) -> bool {
    r.from@.len() > 0 && has_substring(name, r.from@)
}

/// One rename step on `name`.
pub open spec fn rename_step(name: Seq<char>, r: RenameRule) -> Seq<char> {
    if step_applies(name, r) {
        replace_all(name, r.from@, r.to@)
    } else {
        name
    }
}

/// `name` after all of `renames`, applied left to right, each one to the
/// result of those before it.
pub open spec fn renamed(name: Seq<char>, renames: Seq<RenameRule>) -> Seq<char>
    decreases renames.len(),
{
    if renames.len() == 0 {
        name
    } else {
        rename_step(renamed(name, renames.drop_last()), renames.last())
    }
}

/// The name before and after each step of `renames` that changed it.
pub open spec fn rename_trace(name: Seq<char>, renames: Seq<RenameRule>) -> Seq<
    (Seq<char>, Seq<char>),
>
    decreases renames.len(),
{
    if renames.len() == 0 {
        Seq::empty()
    } else {
        let prev = renamed(name, renames.drop_last());
        let earlier = rename_trace(name, renames.drop_last());
        if step_applies(prev, renames.last()) {
            earlier.push((prev, rename_step(prev, renames.last())))
        } else {
            earlier
        }
    }
}

/// The path of the file `name` inside directory `dir`.
pub open spec fn joined_path(dir: Seq<char>, name: Seq<char>) -> Seq<char> {
    if dir.len() == 0 || dir.last() == '/' {
        dir + name
    } else {
        dir + seq!['/'] + name
    }
}

/// One applied rename step, as reported.
#[derive(Clone, Debug)]
pub struct RenameStep {
    pub before: String,
    pub after: String,
}

/// The steps as pairs of names.
pub open spec fn steps_view(steps: Seq<RenameStep>) -> Seq<(Seq<char>, Seq<char>)> {
    steps.map_values(|s: RenameStep| (s.before@, s.after@))
}

/// What happens to one matched file: the rule, the rename steps that
/// changed its name, its final name and its destination path.
#[derive(Clone, Debug)]
pub struct FilePlan {
    pub rule_index: usize,
    pub steps: Vec<RenameStep>,
    pub new_name: String,
    pub destination: String,
}

/// The counts reported at the end of a run.
#[derive(Clone, Copy, Debug, PartialEq, Eq, Structural)]
pub struct Summary {
    /// Candidates that some rule matched, whatever became of their move.
    pub processed: usize,
    /// All candidates.
    pub total: usize,
}

/// How many of `names` some rule matches.
pub open spec fn matched_count(rules: Seq<FileRule>, names: Seq<Seq<char>>) -> nat
    decreases names.len(),
{
    if names.len() == 0 {
        0
    } else {
        matched_count(rules, names.drop_last()) + if selected_rule(rules, names.last()) is Some {
            1nat
        } else {
            0nat
        }
    }
}

/// The index of the first rule whose pattern occurs in `filename`.
pub fn find_rule(config: &Config, filename: &str) -> (r: Option<usize>)
    ensures
        match r {
            Some(i) => selected_rule(config.rules@, filename@) == Some(i as int),
            None => selected_rule(config.rules@, filename@) is None,
        },
{
    let name = chars_of(filename);
    let mut k: usize = 0;
    while k < config.rules.len()
        invariant
            name@ == filename@,
            k <= config.rules@.len(),
            selected_rule(config.rules@, filename@) == first_match_from(
                config.rules@,
                filename@,
                k as int,
            ),
        decreases config.rules@.len() - k,
    {
        let pattern = chars_of(config.rules[k].pattern.as_str());
        if has_substring_exec(&name, &pattern) {
            return Some(k);
        }
        k = k + 1;
    }
    None
}

/// `filename` after the rename steps of `renames`, with the steps that
/// changed it.
pub fn rename_file_name(filename: &str, renames: &Vec<RenameRule>) -> (r: (String, Vec<RenameStep>))
    ensures
        r.0@ == renamed(filename@, renames@),
        steps_view(r.1@) == rename_trace(filename@, renames@),
{
    let mut cur = chars_of(filename);
    let mut steps: Vec<RenameStep> = Vec::new();
    let mut i: usize = 0;
    while i < renames.len()
        invariant
            i <= renames@.len(),
            cur@ == renamed(filename@, renames@.subrange(0, i as int)),
            steps_view(steps@) == rename_trace(filename@, renames@.subrange(0, i as int)),
        decreases renames@.len() - i,
    {
        let ghost prefix = renames@.subrange(0, i as int + 1);
        assert(prefix.drop_last() =~= renames@.subrange(0, i as int));
        assert(prefix.last() == renames@[i as int]);
        let from = chars_of(renames[i].from.as_str());
        if from.len() > 0 && has_substring_exec(&cur, &from) {
            let to = chars_of(renames[i].to.as_str());
            let next = replace_all_exec(&cur, &from, &to);
            let ghost old_steps = steps@;
            steps.push(RenameStep { before: string_of(&cur), after: string_of(&next) });
            assert(steps_view(steps@) =~= steps_view(old_steps).push((cur@, next@)));
            cur = next;
        }
        i = i + 1;
    }
    assert(renames@.subrange(0, i as int) =~= renames@);
    (string_of(&cur), steps)
}

/// The path of the file `name` inside directory `dir`.
pub fn join_path(dir: &str, name: &str) -> (r: String)
    ensures
        r@ == joined_path(dir@, name@),
{
    let mut out = chars_of(dir);
    let n = chars_of(name);
    if out.len() > 0 && out[out.len() - 1] != '/' {
        out.push('/');
    }
    push_all(&mut out, &n);
    string_of(&out)
}

/// The plan for the file `filename`: `None` where no rule matches, else the
/// first matching rule, its renames applied, and the destination path.
pub fn plan_file(config: &Config, filename: &str) -> (r: Option<FilePlan>)
    ensures
        match r {
            None => selected_rule(config.rules@, filename@) is None,
            Some(p) => {
                let rule = config.rules@[p.rule_index as int];
                &&& selected_rule(config.rules@, filename@) == Some(p.rule_index as int)
                &&& p.new_name@ == renamed(filename@, rule.renames@)
                &&& steps_view(p.steps@) == rename_trace(filename@, rule.renames@)
                &&& p.destination@ == joined_path(rule.destination@, p.new_name@)
            },
        },
{
    match find_rule(config, filename) {
        None => None,
        Some(i) => {
            proof {
                lemma_selected_rule_is_first(config.rules@, filename@);
            }
            let rule = &config.rules[i];
            let (new_name, steps) = rename_file_name(filename, &rule.renames);
            let destination = join_path(rule.destination.as_str(), new_name.as_str());
            Some(FilePlan { rule_index: i, steps, new_name, destination })
        },
    }
}

/// The counts of a run over `candidates`: how many some rule matches, and
/// how many there are.
pub fn summarize(config: &Config, candidates: &Vec<String>) -> (r: Summary)
    ensures
        r.processed == matched_count(config.rules@, names_view(candidates@)),
        r.total == candidates@.len(),
{
    let mut processed: usize = 0;
    let mut i: usize = 0;
    while i < candidates.len()
        invariant
            i <= candidates@.len(),
            processed <= i,
            processed == matched_count(config.rules@, names_view(candidates@.subrange(0, i as int))),
        decreases candidates@.len() - i,
    {
        let ghost seen = names_view(candidates@.subrange(0, i as int + 1));
        assert(seen.drop_last() =~= names_view(candidates@.subrange(0, i as int)));
        assert(seen.last() == candidates@[i as int]@);
        if find_rule(config, candidates[i].as_str()).is_some() {
            processed = processed + 1;
        }
        i = i + 1;
    }
    assert(candidates@.subrange(0, i as int) =~= candidates@);
    Summary { processed, total: candidates.len() }
}

proof fn lemma_first_match_from(rules: Seq<FileRule>, name: Seq<char>, k: int)
    requires
        0 <= k <= rules.len(),
    ensures
        match first_match_from(rules, name, k) {
            Some(i) => {
                &&& k <= i < rules.len()
                &&& has_substring(name, rules[i].pattern@)
                &&& forall|j: int| k <= j < i ==> !has_substring(name, #[trigger] rules[j].pattern@)
            },
            None => forall|j: int|
                k <= j < rules.len() ==> !has_substring(name, #[trigger] rules[j].pattern@),
        },
    decreases rules.len() - k,
{
    if k < rules.len() && !has_substring(name, rules[k].pattern@) {
        lemma_first_match_from(rules, name, k + 1);
    }
}

/// The rule selected for a name is the lowest-indexed rule whose pattern is a
/// substring of the name; no rule is selected only where no pattern occurs.
pub proof fn lemma_selected_rule_is_first(rules: Seq<FileRule>, name: Seq<char>)
    ensures
        match selected_rule(rules, name) {
            Some(i) => {
                &&& 0 <= i < rules.len()
                &&& has_substring(name, rules[i].pattern@)
                &&& forall|j: int| 0 <= j < i ==> !has_substring(name, #[trigger] rules[j].pattern@)
            },
            None => forall|j: int|
                0 <= j < rules.len() ==> !has_substring(name, #[trigger] rules[j].pattern@),
        },
{
    lemma_first_match_from(rules, name, 0);
}

/// Renaming is a left fold: the steps of `first` followed by those of `then`
/// give what the steps of `then` give on the result of `first`; a single
/// step is applied to the name it is given.
pub proof fn lemma_renames_fold_left(
    name: Seq<char>,
    first: Seq<RenameRule>,
    then: Seq<RenameRule>,
)
    ensures
        renamed(name, first + then) == renamed(renamed(name, first), then),
        forall|r: RenameRule| renamed(name, #[trigger] seq![r]) == rename_step(name, r),
    decreases then.len(),
{
    if then.len() == 0 {
        assert(first + then =~= first);
    } else {
        lemma_renames_fold_left(name, first, then.drop_last());
        assert((first + then).drop_last() =~= first + then.drop_last());
    }
    assert forall|r: RenameRule| renamed(name, #[trigger] seq![r]) == rename_step(name, r) by {
        assert(seq![r].drop_last() =~= Seq::<RenameRule>::empty());
        assert(renamed(name, Seq::<RenameRule>::empty()) == name);
        assert(seq![r].last() == r);
    }
}

} // verus!
