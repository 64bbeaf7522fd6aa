//! The built-in validators, their tags, and which of them a run selects.

use vstd::prelude::*;
use crate::error::VirtLintError;
use crate::scripts::insert_all;
use crate::text::contains_string;

verus! {

/// The built-in checks.
#[derive(Debug, Clone, Copy, PartialEq, Eq, Structural)]
pub enum BuiltinCheck {
    /// The domain fits into some host NUMA node.
    Numa,
    /// Some host NUMA node has enough free memory for the domain.
    NumaFree,
    /// The host offers an emulator for the domain.
    NodeKvm,
    /// A q35 domain has a free PCIe root port left for hotplug.
    PcieRootPorts,
}

/// A built-in validator: its check and its tags.
pub struct Validator {
    check: BuiltinCheck,
    tags: Vec<String>,
}

impl Validator {
    /// The check this validator runs.
    pub closed spec fn spec_check(&self) -> BuiltinCheck {
        self.check
    }

    /// The tags of this validator.
    pub closed spec fn spec_tags(&self) -> Seq<Seq<char>> {
        self.tags.deep_view()
    }

    /// The check this validator runs.
    pub fn check(&self) -> (r: BuiltinCheck)
        ensures
            r == self.spec_check(),
    {
        self.check
    }

    /// The tags of this validator.
    pub fn tags(&self) -> (r: &Vec<String>)
        ensures
            r.deep_view() == self.spec_tags(),
    {
        &self.tags
    }
}

/// The built-in validators and their tags, in the order they run.
pub open spec fn builtin_table() -> Seq<(BuiltinCheck, Seq<Seq<char>>)> {
    seq![
        (BuiltinCheck::Numa, seq!["TAG_1"@, "TAG_2"@]),
        (BuiltinCheck::NumaFree, seq!["TAG_2"@]),
        (BuiltinCheck::NodeKvm, seq!["TAG_1"@, "TAG_3"@]),
        (BuiltinCheck::PcieRootPorts, seq!["TAG_4"@]),
    ]
}

/// The tags of any validator of `table`.
pub open spec fn table_tags(table: Seq<(BuiltinCheck, Seq<Seq<char>>)>) -> Set<Seq<char>> {
    Set::new(|t: Seq<char>| exists|i: int| 0 <= i < table.len() && (#[trigger] table[i]).1.contains(t))
}

/// A validator with the tags `vtags` runs when the tags asked for are
/// `tags`: all run when none are asked for, otherwise those that carry one.
pub open spec fn wanted(tags: Seq<Seq<char>>, vtags: Seq<Seq<char>>) -> bool {
    tags.len() == 0 || exists|t: Seq<char>| #[trigger] vtags.contains(t) && tags.contains(t)
}

/// Indices, in order, of the first `n` validators of `table` that run.
pub open spec fn selected_upto(
    table: Seq<(BuiltinCheck, Seq<Seq<char>>)>,
    tags: Seq<Seq<char>>,
    n: nat,
) -> Seq<usize>
    decreases n,
{
    if n == 0 {
        Seq::<usize>::empty()
    } else {
        let prev = selected_upto(table, tags, (n - 1) as nat);
        if wanted(tags, table[n - 1].1) {
            prev.push((n - 1) as usize)
        } else {
            prev
        }
    }
}

/// Indices, in order, of the validators of `table` that run.
pub open spec fn spec_selected(table: Seq<(BuiltinCheck, Seq<Seq<char>>)>, tags: Seq<Seq<char>>) -> Seq<
    usize,
> {
    selected_upto(table, tags, table.len())
}

/// The first tag of `tags` that is not in `known`, by its index.
pub open spec fn first_unknown(tags: Seq<Seq<char>>, known: Set<Seq<char>>) -> Option<int> {
    if exists|i: int| 0 <= i < tags.len() && !known.contains(#[trigger] tags[i]) {
        Some(
            choose|i: int|
                0 <= i < tags.len() && !known.contains(#[trigger] tags[i]) && forall|j: int|
                    0 <= j < i ==> known.contains(#[trigger] tags[j]),
        )
    } else {
        None
    }
}

/// The first unknown tag is the one at `i` when all before it are known.
proof fn lemma_first_unknown_at(tags: Seq<Seq<char>>, known: Set<Seq<char>>, i: int)
    requires
        0 <= i < tags.len(),
        !known.contains(tags[i]),
        forall|j: int| 0 <= j < i ==> known.contains(#[trigger] tags[j]),
    ensures
        first_unknown(tags, known) == Some(i),
{
    assert(exists|c: int| 0 <= c < tags.len() && !known.contains(#[trigger] tags[c]));
    let c = choose|c: int|
        0 <= c < tags.len() && !known.contains(#[trigger] tags[c]) && forall|j: int|
            0 <= j < c ==> known.contains(#[trigger] tags[j]);
    assert(0 <= c < tags.len() && !known.contains(tags[c]) && forall|j: int|
        0 <= j < c ==> known.contains(#[trigger] tags[j]));
    if c < i {
        assert(known.contains(tags[c]));
    } else if c > i {
        assert(known.contains(tags[i]));
    }
}

/// The built-in validators.
pub struct Validators {
    validators: Vec<Validator>,
}

impl Validators {
    /// Each validator's check and tags, in the order they run.
    pub closed spec fn spec_table(&self) -> Seq<(BuiltinCheck, Seq<Seq<char>>)> {
        Seq::new(
            self.validators@.len(),
            |i: int| (self.validators@[i].check, self.validators@[i].tags.deep_view()),
        )
    }

    /// The built-in validators: NUMA fit (`TAG_1`, `TAG_2`), free NUMA memory
    /// (`TAG_2`), emulator (`TAG_1`, `TAG_3`) and PCIe root ports (`TAG_4`).
    pub fn builtin() -> (r: Validators)
        ensures
            r.spec_table() == builtin_table(),
    {
        let mut v: Vec<Validator> = Vec::new();
        let mut t0: Vec<String> = Vec::new();
        t0.push(String::from_str("TAG_1"));
        t0.push(String::from_str("TAG_2"));
        v.push(Validator { check: BuiltinCheck::Numa, tags: t0 });
        let mut t1: Vec<String> = Vec::new();
        t1.push(String::from_str("TAG_2"));
        v.push(Validator { check: BuiltinCheck::NumaFree, tags: t1 });
        let mut t2: Vec<String> = Vec::new();
        t2.push(String::from_str("TAG_1"));
        t2.push(String::from_str("TAG_3"));
        v.push(Validator { check: BuiltinCheck::NodeKvm, tags: t2 });
        let mut t3: Vec<String> = Vec::new();
        t3.push(String::from_str("TAG_4"));
        v.push(Validator { check: BuiltinCheck::PcieRootPorts, tags: t3 });
        let r = Validators { validators: v };
        assert(r.spec_table()[0].1 =~= seq!["TAG_1"@, "TAG_2"@]);
        assert(r.spec_table()[1].1 =~= seq!["TAG_2"@]);
        assert(r.spec_table()[2].1 =~= seq!["TAG_1"@, "TAG_3"@]);
        assert(r.spec_table()[3].1 =~= seq!["TAG_4"@]);
        assert(r.spec_table() =~= builtin_table());
        r
    }

    /// How many validators there are.
    pub fn len(&self) -> (r: usize)
        ensures
            r == self.spec_table().len(),
    {
        self.validators.len()
    }

    /// The validator at `i`.
    pub fn get(&self, i: usize) -> (r: &Validator)
        requires
            i < self.spec_table().len(),
        ensures
            r.spec_check() == self.spec_table()[i as int].0,
            r.spec_tags() == self.spec_table()[i as int].1,
    {
        &self.validators[i]
    }

    /// Every tag a validator answers to: those of the built-in validators
    /// and `script_tags`, the tags of the validator scripts; each once.
    pub fn list_tags(&self, script_tags: &Vec<String>) -> (r: Vec<String>)
        ensures
            r.deep_view().no_duplicates(),
            r.deep_view().to_set() == table_tags(self.spec_table()) + script_tags.deep_view().to_set(),
    {
        let ghost table = self.spec_table();
        let mut out: Vec<String> = Vec::new();
        let mut i: usize = 0;
        while i < self.validators.len()
            invariant
                table == self.spec_table(),
                i <= table.len(),
                out.deep_view().no_duplicates(),
                out.deep_view().to_set() == Set::new(
                    |t: Seq<char>| exists|k: int| 0 <= k < i && (#[trigger] table[k]).1.contains(t),
                ),
            decreases table.len() - i,
        {
            let ghost before = out.deep_view().to_set();
            insert_all(&mut out, &self.validators[i].tags);
            proof {
                let vt = table[i as int].1;
                assert(vt == self.validators@[i as int].tags.deep_view());
                assert forall|t: Seq<char>| out.deep_view().to_set().contains(t) <==> exists|k: int|
                    0 <= k < i + 1 && (#[trigger] table[k]).1.contains(t) by {
                    if vt.to_set().contains(t) {
                        assert(table[i as int].1.contains(t));
                    }
                    if exists|k: int| 0 <= k < i + 1 && (#[trigger] table[k]).1.contains(t) {
                        let k = choose|k: int| 0 <= k < i + 1 && (#[trigger] table[k]).1.contains(t);
                        if k == i {
                            assert(vt.to_set().contains(t));
                        }
                    }
                }
            }
            i = i + 1;
            assert(out.deep_view().to_set() =~= Set::new(
                |t: Seq<char>| exists|k: int| 0 <= k < i && (#[trigger] table[k]).1.contains(t),
            ));
        }
        insert_all(&mut out, script_tags);
        assert(out.deep_view().to_set() =~= table_tags(table) + script_tags.deep_view().to_set());
        out
    }

    /// Checks that every tag asked for is known (a tag of a built-in
    /// validator or of a script, `script_tags`); `UnknownValidatorTag` with
    /// the first one that is not.
    pub fn validate_tags(&self, tags: &Vec<String>, script_tags: &Vec<String>) -> (r: Result<
        (),
        VirtLintError,
    >)
        ensures
            ({
                let known = table_tags(self.spec_table()) + script_tags.deep_view().to_set();
                match first_unknown(tags.deep_view(), known) {
                    None => r is Ok,
                    Some(i) => match r {
                        Err(VirtLintError::UnknownValidatorTag(t)) => t@ == tags.deep_view()[i],
                        _ => false,
                    },
                }
            }),
    {
        let known = self.list_tags(script_tags);
        let ghost ks = table_tags(self.spec_table()) + script_tags.deep_view().to_set();
        let mut i: usize = 0;
        while i < tags.len()
            invariant
                i <= tags@.len(),
                known.deep_view().to_set() == ks,
                ks == table_tags(self.spec_table()) + script_tags.deep_view().to_set(),
                forall|j: int| 0 <= j < i ==> ks.contains(#[trigger] tags.deep_view()[j]),
            decreases tags@.len() - i,
        {
            if !contains_string(&known, &tags[i]) {
                assert(tags.deep_view()[i as int] == tags@[i as int]@);
                assert(!ks.contains(tags.deep_view()[i as int]));
                proof {
                    lemma_first_unknown_at(tags.deep_view(), ks, i as int);
                }
                let t: String = tags[i].clone();
                assert(t@ == tags.deep_view()[i as int]);
                return Err(VirtLintError::UnknownValidatorTag(t));
            }
            assert(tags.deep_view()[i as int] == tags@[i as int]@);
            i = i + 1;
        }
        Ok(())
    }

    /// Whether the validator at `i` runs when `tags` are asked for.
    fn is_wanted(&self, i: usize, tags: &Vec<String>) -> (r: bool)
        requires
            i < self.spec_table().len(),
        ensures
            r == wanted(tags.deep_view(), self.spec_table()[i as int].1),
    {
        if tags.len() == 0 {
            return true;
        }
        let vt = &self.validators[i].tags;
        let mut k: usize = 0;
        while k < vt.len()
            invariant
                vt.deep_view() == self.spec_table()[i as int].1,
                k <= vt@.len(),
                forall|j: int| 0 <= j < k ==> !tags.deep_view().contains(#[trigger] vt.deep_view()[j]),
            decreases vt@.len() - k,
        {
            if contains_string(tags, &vt[k]) {
                assert(vt.deep_view()[k as int] == vt@[k as int]@);
                assert(vt.deep_view().contains(vt.deep_view()[k as int]));
                return true;
            }
            assert(vt.deep_view()[k as int] == vt@[k as int]@);
            k = k + 1;
        }
        proof {
            if exists|t: Seq<char>| #[trigger] vt.deep_view().contains(t) && tags.deep_view().contains(t) {
                let t = choose|t: Seq<char>| #[trigger] vt.deep_view().contains(t) && tags.deep_view().contains(t);
                let j = choose|j: int| 0 <= j < vt.deep_view().len() && vt.deep_view()[j] == t;
                assert(!tags.deep_view().contains(vt.deep_view()[j]));
            }
        }
        false
    }

    /// The indices, in order, of the validators that run when `tags` are
    /// asked for: all when none are, otherwise those carrying one of them.
    pub fn get_validators(&self, tags: &Vec<String>) -> (r: Vec<usize>)
        ensures
            r@ == spec_selected(self.spec_table(), tags.deep_view()),
    {
        let mut out: Vec<usize> = Vec::new();
        let mut i: usize = 0;
        while i < self.validators.len()
            invariant
                i <= self.spec_table().len(),
                out@ == selected_upto(self.spec_table(), tags.deep_view(), i as nat),
            decreases self.spec_table().len() - i,
        {
            if self.is_wanted(i, tags) {
                out.push(i);
            }
            i = i + 1;
        }
        out
    }
}

} // verus!
