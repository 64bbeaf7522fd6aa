//! The built-in checks: what each reads from the capabilities and domain
//! XML, and when it warns.

use vstd::prelude::*;
use crate::error::VirtLintError;
use crate::numbers::{parse_int, parse_u64, parse_i32, spec_parse_int, spec_parse_u64, spec_parse_i32};
use crate::order::sorted_strings;
use crate::text::{clone_strings, contains_str, seq_contains_sub};
use crate::warning::{VirtLint, VirtLintWarning, WarningDomain, WarningLevel};
use crate::xml::{
    no_nul, parse_xml, spec_first_node, xml_parses, xpath_nodes_raw,
    xpath_eval_or_none, xpath_select, XmlDoc,
};

verus! {

/// What a check ends in.
pub enum CheckOutcome {
    /// Nothing to report.
    Clean,
    /// One warning recorded.
    Warned,
    /// An XML document did not parse.
    BadXml,
    /// A number in a document could not be read: this text.
    BadNumber(Ghost<Seq<char>>),
}

/// `w` carries these tags (sorted), domain, level and message.
pub open spec fn warning_is(
    w: VirtLintWarning,
    tags: Seq<Seq<char>>,
    domain: WarningDomain,
    level: WarningLevel,
    msg: Seq<char>,
) -> bool {
    &&& sorted_strings(w.tags.deep_view())
    &&& w.tags.deep_view().to_multiset() == tags.to_multiset()
    &&& w.domain == domain
    &&& w.level == level
    &&& w.msg@ == msg
}

/// A check's result and its effect on the warning log agree with `o`; a
/// warning it records carries `tags`, `domain`, `level` and `msg`.
pub open spec fn outcome_holds(
    o: CheckOutcome,
    r: Result<(), VirtLintError>,
    before: Seq<VirtLintWarning>,
    after: Seq<VirtLintWarning>,
    tags: Seq<Seq<char>>,
    domain: WarningDomain,
    level: WarningLevel,
    msg: Seq<char>,
) -> bool {
    match o {
        CheckOutcome::Clean => r is Ok && after == before,
        CheckOutcome::Warned => {
            &&& r is Ok
            &&& after.len() == before.len() + 1
            &&& after.drop_last() == before
            &&& warning_is(after.last(), tags, domain, level, msg)
        },
        CheckOutcome::BadXml => r matches Err(e) && e is XmlParse && after == before,
        CheckOutcome::BadNumber(t) => r matches Err(VirtLintError::ParseInt(s)) && s@ == t@ && after == before,
    }
}

/// The view of an optional string.
pub open spec fn opt_view(s: Option<&str>) -> Option<Seq<char>> {
    match s {
        Some(t) => Some(t@),
        None => None,
    }
}

/// Every text reads as a decimal `u64`.
pub open spec fn all_parse_u64(t: Seq<Seq<char>>) -> bool {
    forall|i: int| 0 <= i < t.len() ==> (#[trigger] spec_parse_u64(t[i])) is Some
}

/// The decimal `u64` that each text reads as.
pub open spec fn parsed_u64s(t: Seq<Seq<char>>) -> Seq<u64> {
    t.map_values(|x: Seq<char>| spec_parse_u64(x).unwrap())
}

/// Every text reads as a decimal `i32`.
pub open spec fn all_parse_i32(t: Seq<Seq<char>>) -> bool {
    forall|i: int| 0 <= i < t.len() ==> (#[trigger] spec_parse_i32(t[i])) is Some
}

/// The decimal `i32` that each text reads as.
pub open spec fn parsed_i32s(t: Seq<Seq<char>>) -> Seq<i32> {
    t.map_values(|x: Seq<char>| spec_parse_i32(x).unwrap())
}

/// Every text reads as a number in the sense of `parse_int`.
pub open spec fn all_parse_int(t: Seq<Seq<char>>) -> bool {
    forall|i: int| 0 <= i < t.len() ==> (#[trigger] spec_parse_int(t[i])) is Some
}

/// The number that each text reads as, in the sense of `parse_int`.
pub open spec fn parsed_ints(t: Seq<Seq<char>>) -> Seq<u64> {
    t.map_values(|x: Seq<char>| spec_parse_int(x).unwrap())
}

/// Reads every text as a decimal `u64`; `None` if one does not read.
pub fn parse_all_u64(texts: &Vec<String>) -> (r: Option<Vec<u64>>)
    ensures
        r is Some <==> all_parse_u64(texts.deep_view()),
        r matches Some(v) ==> v@ == parsed_u64s(texts.deep_view()),
{
    let mut out: Vec<u64> = Vec::new();
    let mut i: usize = 0;
    while i < texts.len()
        invariant
            i <= texts@.len(),
            all_parse_u64(texts.deep_view().take(i as int)),
            out@ == parsed_u64s(texts.deep_view().take(i as int)),
        decreases texts@.len() - i,
    {
        assert(texts.deep_view()[i as int] == texts@[i as int]@);
        match parse_u64(texts[i].as_str()) {
            None => {
                assert(spec_parse_u64(texts.deep_view()[i as int]) is None);
                return None;
            },
            Some(v) => {
                out.push(v);
            },
        }
        i = i + 1;
        assert(texts.deep_view().take(i as int).drop_last() =~= texts.deep_view().take(i - 1));
        assert(out@ =~= parsed_u64s(texts.deep_view().take(i as int)));
    }
    assert(texts.deep_view().take(i as int) =~= texts.deep_view());
    Some(out)
}

/// Reads every text as a decimal `i32`; `None` if one does not read.
pub fn parse_all_i32(texts: &Vec<String>) -> (r: Option<Vec<i32>>)
    ensures
        r is Some <==> all_parse_i32(texts.deep_view()),
        r matches Some(v) ==> v@ == parsed_i32s(texts.deep_view()),
{
    let mut out: Vec<i32> = Vec::new();
    let mut i: usize = 0;
    while i < texts.len()
        invariant
            i <= texts@.len(),
            all_parse_i32(texts.deep_view().take(i as int)),
            out@ == parsed_i32s(texts.deep_view().take(i as int)),
        decreases texts@.len() - i,
    {
        assert(texts.deep_view()[i as int] == texts@[i as int]@);
        match parse_i32(texts[i].as_str()) {
            None => {
                assert(spec_parse_i32(texts.deep_view()[i as int]) is None);
                return None;
            },
            Some(v) => {
                out.push(v);
            },
        }
        i = i + 1;
        assert(texts.deep_view().take(i as int).drop_last() =~= texts.deep_view().take(i - 1));
        assert(out@ =~= parsed_i32s(texts.deep_view().take(i as int)));
    }
    assert(texts.deep_view().take(i as int) =~= texts.deep_view());
    Some(out)
}

/// The first of the texts from index `i` on that does not read as
/// `parse_int` reads a number (empty where all of them read).
pub open spec fn first_bad_int_from(t: Seq<Seq<char>>, i: int) -> Seq<char>
    decreases t.len() - i,
{
    if i < 0 || i >= t.len() {
        Seq::<char>::empty()
    } else if spec_parse_int(t[i]) is None {
        t[i]
    } else {
        first_bad_int_from(t, i + 1)
    }
}

/// The first of the texts that does not read as a number in the sense of
/// `parse_int`.
pub open spec fn first_bad_int(t: Seq<Seq<char>>) -> Seq<char> {
    first_bad_int_from(t, 0)
}

/// Reads every text as `parse_int` does; where one does not read, that
/// text (the first such).
pub fn parse_all_int(texts: &Vec<String>) -> (r: Result<Vec<u64>, String>)
    ensures
        r is Ok <==> all_parse_int(texts.deep_view()),
        r matches Ok(v) ==> v@ == parsed_ints(texts.deep_view()),
        r matches Err(s) ==> s@ == first_bad_int(texts.deep_view()),
{
    let mut out: Vec<u64> = Vec::new();
    let mut i: usize = 0;
    while i < texts.len()
        invariant
            i <= texts@.len(),
            all_parse_int(texts.deep_view().take(i as int)),
            out@ == parsed_ints(texts.deep_view().take(i as int)),
            first_bad_int(texts.deep_view()) == first_bad_int_from(texts.deep_view(), i as int),
        decreases texts@.len() - i,
    {
        assert(texts.deep_view()[i as int] == texts@[i as int]@);
        match parse_int(texts[i].as_str()) {
            None => {
                assert(spec_parse_int(texts.deep_view()[i as int]) is None);
                let bad: String = texts[i].clone();
                return Err(bad);
            },
            Some(v) => {
                out.push(v);
            },
        }
        i = i + 1;
        assert(texts.deep_view().take(i as int).drop_last() =~= texts.deep_view().take(i - 1));
        assert(out@ =~= parsed_ints(texts.deep_view().take(i as int)));
    }
    assert(texts.deep_view().take(i as int) =~= texts.deep_view());
    Ok(out)
}

/// Some value of `v` is strictly greater than `need`.
pub open spec fn fits_some(v: Seq<u64>, need: u64) -> bool {
    exists|i: int| 0 <= i < v.len() && #[trigger] v[i] > need
}

/// Whether some value of `v` is strictly greater than `need`.
pub fn any_greater(v: &Vec<u64>, need: u64) -> (r: bool)
    ensures
        r == fits_some(v@, need),
{
    let mut i: usize = 0;
    while i < v.len()
        invariant
            i <= v@.len(),
            forall|k: int| 0 <= k < i ==> v@[k] <= need,
        decreases v@.len() - i,
    {
        if v[i] > need {
            return true;
        }
        i = i + 1;
    }
    false
}

/// The query for the memory of the domain.
pub open spec fn domain_memory_xpath() -> Seq<char> {
    "//domain/memory"@
}

/// The memory that the domain asks for: the first `memory` node read as
/// `parse_int` does, 0 where there is none; `None` where it does not read.
pub open spec fn spec_domain_memory(dom: Seq<char>) -> Option<u64> {
    match spec_first_node(xpath_select(dom, domain_memory_xpath())) {
        None => Some(0),
        Some(t) => spec_parse_int(t),
    }
}

/// The text of the domain's first `memory` node (empty where it has none).
pub open spec fn domain_memory_text(dom: Seq<char>) -> Seq<char> {
    match spec_first_node(xpath_select(dom, domain_memory_xpath())) {
        None => Seq::<char>::empty(),
        Some(t) => t,
    }
}

/// The memory that the domain asks for (see `spec_domain_memory`); where
/// it does not read, the text that does not.
pub fn domain_memory(dom: &XmlDoc) -> (r: Result<u64, String>)
    ensures
        r is Ok <==> spec_domain_memory(dom@) is Some,
        r matches Ok(m) ==> spec_domain_memory(dom@) == Some(m),
        r matches Err(t) ==> t@ == domain_memory_text(dom@),
{
    proof {
        reveal_strlit("//domain/memory");
    }
    match xpath_eval_or_none(dom, "//domain/memory") {
        None => Ok(0),
        Some(m) => match parse_int(m.as_str()) {
            Some(v) => Ok(v),
            None => Err(m),
        },
    }
}

/// The query for the memory of each host NUMA cell.
pub open spec fn numa_memory_xpath() -> Seq<char> {
    "//capabilities/host/topology/cells/cell/memory/text()"@
}

/// Where the capabilities XML parses, the memory of each NUMA cell can be
/// selected and reads as a decimal `u64` (elsewhere `check_numa` would have
/// nothing to go on).
pub open spec fn numa_caps_readable(caps: Option<Seq<char>>) -> bool {
    match caps {
        Some(c) => xml_parses(c) ==> (xpath_select(c, numa_memory_xpath()) matches Some(t)
            && all_parse_u64(t)),
        None => true,
    }
}

/// The memory of each host NUMA cell, as the capabilities list it.
pub open spec fn numa_memories(caps: Seq<char>) -> Seq<u64> {
    parsed_u64s(xpath_select(caps, numa_memory_xpath()).unwrap())
}

/// What `check_numa` ends in: nothing without capabilities; a warning when
/// no NUMA cell has strictly more memory than the domain asks for.
pub open spec fn numa_outcome(caps: Option<Seq<char>>, dom: Seq<char>) -> CheckOutcome {
    match caps {
        None => CheckOutcome::Clean,
        Some(c) => if !xml_parses(c) {
            CheckOutcome::BadXml
        } else {
            match spec_domain_memory(dom) {
                None => CheckOutcome::BadNumber(Ghost(domain_memory_text(dom))),
                Some(m) => if fits_some(numa_memories(c), m) {
                    CheckOutcome::Clean
                } else {
                    CheckOutcome::Warned
                },
            }
        },
    }
}

/// The message of `check_numa`.
pub open spec fn numa_msg() -> Seq<char> {
    "Domain would not fit into any host NUMA node"@
}

/// Warns (domain, error) when the domain would not fit into any host NUMA
/// node: no cell in the capabilities `caps` has strictly more memory than
/// the domain `dom` asks for. Without capabilities there is nothing to check.
pub fn check_numa(vl: &mut VirtLint, caps: Option<&str>, dom: &XmlDoc, tags: &Vec<String>) -> (r:
    Result<(), VirtLintError>)
    requires
        numa_caps_readable(opt_view(caps)),
    ensures
        outcome_holds(
            numa_outcome(opt_view(caps), dom@),
            r,
            old(vl).spec_warnings(),
            final(vl).spec_warnings(),
            tags.deep_view(),
            WarningDomain::Domain,
            WarningLevel::Error,
            numa_msg(),
        ),
{
    let c = match caps {
        None => return Ok(()),
        Some(c) => c,
    };
    let doc = parse_xml(c)?;
    proof {
        reveal_strlit("//capabilities/host/topology/cells/cell/memory/text()");
    }
    let texts = match xpath_nodes_raw(
        &doc,
        "//capabilities/host/topology/cells/cell/memory/text()",
    ) {
        Some(t) => t,
        None => {
            assert(false);
            return Ok(());
        },
    };
    let mems = match parse_all_u64(&texts) {
        Some(m) => m,
        None => {
            assert(false);
            return Ok(());
        },
    };
    let dom_mem = match domain_memory(dom) {
        Ok(m) => m,
        Err(t) => return Err(VirtLintError::ParseInt(t)),
    };
    if !any_greater(&mems, dom_mem) {
        vl.add_warning(
            clone_strings(tags),
            WarningDomain::Domain,
            WarningLevel::Error,
            String::from_str("Domain would not fit into any host NUMA node"),
        );
    }
    Ok(())
}

/// `check_numa` where its capabilities are readable; `None`, and the log
/// untouched, where they parse but their NUMA cell memory cannot be read.
pub fn try_check_numa(vl: &mut VirtLint, caps: Option<&str>, dom: &XmlDoc, tags: &Vec<String>) -> (r:
    Option<Result<(), VirtLintError>>)
    ensures
        r is None <==> !numa_caps_readable(opt_view(caps)),
        r is None ==> final(vl).spec_warnings() == old(vl).spec_warnings(),
        r matches Some(res) ==> outcome_holds(
            numa_outcome(opt_view(caps), dom@),
            res,
            old(vl).spec_warnings(),
            final(vl).spec_warnings(),
            tags.deep_view(),
            WarningDomain::Domain,
            WarningLevel::Error,
            numa_msg(),
        ),
{
    if let Some(c) = caps {
        if let Ok(doc) = parse_xml(c) {
            proof {
                reveal_strlit("//capabilities/host/topology/cells/cell/memory/text()");
            }
            match xpath_nodes_raw(
                &doc,
                "//capabilities/host/topology/cells/cell/memory/text()",
            ) {
                None => return None,
                Some(t) => {
                    if parse_all_u64(&t).is_none() {
                        return None;
                    }
                },
            }
        }
    }
    Some(check_numa(vl, caps, dom, tags))
}

/// The query for the id of each host NUMA cell.
pub open spec fn numa_id_xpath() -> Seq<char> {
    "//capabilities/host/topology/cells/cell/@id"@
}

/// Where the capabilities parse, the id of each NUMA cell can be selected
/// and reads as a decimal `i32`.
pub open spec fn numa_ids_readable(caps: Seq<char>) -> bool {
    xml_parses(caps) ==> (xpath_select(caps, numa_id_xpath()) matches Some(t) && all_parse_i32(t))
}

/// The ids of the host NUMA cells, whose free memory `check_numa_free`
/// asks the host for; `XmlParse` where the capabilities do not parse.
pub fn numa_cell_ids(caps: &str) -> (r: Result<Vec<i32>, VirtLintError>)
    requires
        numa_ids_readable(caps@),
    ensures
        r is Ok <==> xml_parses(caps@),
        r matches Ok(v) ==> v@ == parsed_i32s(xpath_select(caps@, numa_id_xpath()).unwrap()),
        r matches Err(e) ==> e is XmlParse,
{
    let doc = parse_xml(caps)?;
    proof {
        reveal_strlit("//capabilities/host/topology/cells/cell/@id");
    }
    let texts = match xpath_nodes_raw(&doc, "//capabilities/host/topology/cells/cell/@id") {
        Some(t) => t,
        None => {
            assert(false);
            return Ok(Vec::new());
        },
    };
    match parse_all_i32(&texts) {
        Some(ids) => Ok(ids),
        None => {
            assert(false);
            Ok(Vec::new())
        },
    }
}

/// `numa_cell_ids` where the ids are readable; `None` where the
/// capabilities parse but their cell ids cannot be read.
pub fn try_numa_cell_ids(caps: &str) -> (r: Option<Result<Vec<i32>, VirtLintError>>)
    ensures
        r is None <==> !numa_ids_readable(caps@),
        r matches Some(res) ==> {
            &&& res is Ok <==> xml_parses(caps@)
            &&& res matches Ok(v) ==> v@ == parsed_i32s(
                xpath_select(caps@, numa_id_xpath()).unwrap(),
            )
            &&& res matches Err(e) ==> e is XmlParse
        },
{
    if let Ok(doc) = parse_xml(caps) {
        proof {
            reveal_strlit("//capabilities/host/topology/cells/cell/@id");
        }
        match xpath_nodes_raw(&doc, "//capabilities/host/topology/cells/cell/@id") {
            None => return None,
            Some(t) => {
                if parse_all_i32(&t).is_none() {
                    return None;
                }
            },
        }
    }
    Some(numa_cell_ids(caps))
}

/// The free memory of the NUMA cells, where it is known.
pub open spec fn opt_seq(free: Option<&Vec<u64>>) -> Option<Seq<u64>> {
    match free {
        Some(f) => Some(f@),
        None => None,
    }
}

/// What `check_numa_free` ends in, given the free memory of the NUMA cells:
/// nothing where it is not known (no connection to the host, or no
/// capabilities to list the cells).
pub open spec fn numa_free_outcome(free: Option<Seq<u64>>, dom: Seq<char>) -> CheckOutcome {
    match free {
        None => CheckOutcome::Clean,
        Some(f) => match spec_domain_memory(dom) {
            None => CheckOutcome::BadNumber(Ghost(domain_memory_text(dom))),
            Some(m) => if fits_some(f, m) {
                CheckOutcome::Clean
            } else {
                CheckOutcome::Warned
            },
        },
    }
}

/// The message of `check_numa_free`.
pub open spec fn numa_free_msg() -> Seq<char> {
    "Not enough free memory on any NUMA node"@
}

/// Warns (domain, error) when no NUMA cell has strictly more free memory
/// than the domain `dom` asks for; `free` is what the host reports free on
/// each cell that `numa_cell_ids` lists, `None` where there is no
/// connection to the host or no capabilities, and nothing is checked.
pub fn check_numa_free(vl: &mut VirtLint, free: Option<&Vec<u64>>, dom: &XmlDoc, tags: &Vec<String>) -> (r:
    Result<(), VirtLintError>)
    ensures
        outcome_holds(
            numa_free_outcome(opt_seq(free), dom@),
            r,
            old(vl).spec_warnings(),
            final(vl).spec_warnings(),
            tags.deep_view(),
            WarningDomain::Domain,
            WarningLevel::Error,
            numa_free_msg(),
        ),
{
    let free = match free {
        None => return Ok(()),
        Some(f) => f,
    };
    let dom_mem = match domain_memory(dom) {
        Ok(m) => m,
        Err(t) => return Err(VirtLintError::ParseInt(t)),
    };
    if !any_greater(free, dom_mem) {
        vl.add_warning(
            clone_strings(tags),
            WarningDomain::Domain,
            WarningLevel::Error,
            String::from_str("Not enough free memory on any NUMA node"),
        );
    }
    Ok(())
}

/// The root ports of `chassis` that no device address in `taken` uses, in
/// their order.
pub open spec fn spec_free_ports(chassis: Seq<u64>, taken: Seq<u64>) -> Seq<u64>
    decreases chassis.len(),
{
    if chassis.len() == 0 {
        Seq::<u64>::empty()
    } else {
        let rest = spec_free_ports(chassis.drop_last(), taken);
        if taken.contains(chassis.last()) {
            rest
        } else {
            rest.push(chassis.last())
        }
    }
}

/// A root port is free exactly when some chassis number is not among the
/// taken bus numbers.
pub proof fn lemma_free_ports_empty(chassis: Seq<u64>, taken: Seq<u64>)
    ensures
        spec_free_ports(chassis, taken).len() == 0 <==> forall|i: int|
            0 <= i < chassis.len() ==> taken.contains(#[trigger] chassis[i]),
    decreases chassis.len(),
{
    if chassis.len() > 0 {
        lemma_free_ports_empty(chassis.drop_last(), taken);
        let d = chassis.drop_last();
        if spec_free_ports(chassis, taken).len() == 0 {
            assert forall|i: int| 0 <= i < chassis.len() implies taken.contains(
                #[trigger] chassis[i],
            ) by {
                if i < d.len() {
                    assert(chassis[i] == d[i]);
                }
            }
        }
        if forall|i: int| 0 <= i < chassis.len() ==> taken.contains(#[trigger] chassis[i]) {
            assert forall|i: int| 0 <= i < d.len() implies taken.contains(#[trigger] d[i]) by {
                assert(chassis[i] == d[i]);
            }
            assert(taken.contains(chassis[chassis.len() - 1]));
        }
    }
}

/// The chassis numbers that no address in `taken` uses.
pub fn free_ports(chassis: &Vec<u64>, taken: &Vec<u64>) -> (r: Vec<u64>)
    ensures
        r@ == spec_free_ports(chassis@, taken@),
{
    let mut out: Vec<u64> = Vec::new();
    let mut i: usize = 0;
    while i < chassis.len()
        invariant
            i <= chassis@.len(),
            out@ == spec_free_ports(chassis@.take(i as int), taken@),
        decreases chassis@.len() - i,
    {
        let c = chassis[i];
        let mut j: usize = 0;
        let mut used = false;
        while j < taken.len()
            invariant
                j <= taken@.len(),
                used == (exists|k: int| 0 <= k < j && #[trigger] taken@[k] == c),
            decreases taken@.len() - j,
        {
            if taken[j] == c {
                used = true;
            }
            j = j + 1;
        }
        assert(used == taken@.contains(c));
        if !used {
            out.push(c);
        }
        i = i + 1;
        assert(chassis@.take(i as int).drop_last() =~= chassis@.take(i - 1));
    }
    assert(chassis@.take(chassis@.len() as int) =~= chassis@);
    out
}

/// The first node the domain XML selects by `xpath`.
pub open spec fn dom_first(dom: Seq<char>, xpath: Seq<char>) -> Option<Seq<char>> {
    spec_first_node(xpath_select(dom, xpath))
}

/// The query for the virtualization type of the domain.
pub open spec fn virt_type_xpath() -> Seq<char> {
    "//domain/@type"@
}

/// The query for the machine type of the domain.
pub open spec fn machine_xpath() -> Seq<char> {
    "//domain/os/type/@machine"@
}

/// The query for the chassis of each PCI(e) controller.
pub open spec fn chassis_xpath() -> Seq<char> {
    "//domain/devices/controller[@type='pci']/target/@chassis"@
}

/// The query for the bus of each PCI device address.
pub open spec fn bus_xpath() -> Seq<char> {
    "//domain/devices//address[@type='pci']/@bus"@
}

/// The root port check applies: a KVM or QEMU domain of a q35 machine.
pub open spec fn pcie_applicable(dom: Seq<char>) -> bool {
    match dom_first(dom, virt_type_xpath()) {
        Some(t) => (t == "kvm"@ || t == "qemu"@) && match dom_first(dom, machine_xpath()) {
            Some(m) => seq_contains_sub(m, "q35"@),
            None => false,
        },
        None => false,
    }
}

/// Where the check applies, the controllers' chassis can be selected and
/// read as decimal `u64`, and, if there are any, the device buses can be
/// selected.
pub open spec fn pcie_readable(dom: Seq<char>) -> bool {
    pcie_applicable(dom) ==> match xpath_select(dom, chassis_xpath()) {
        Some(t) => all_parse_u64(t) && (t.len() > 0 ==> xpath_select(dom, bus_xpath()) is Some),
        None => false,
    }
}

/// The chassis numbers of the domain's PCI(e) controllers.
pub open spec fn dom_chassis(dom: Seq<char>) -> Seq<u64> {
    parsed_u64s(xpath_select(dom, chassis_xpath()).unwrap())
}

/// What `check_pcie_root_ports` ends in: a warning when the check applies
/// and every root port (chassis) is taken by some device address.
pub open spec fn pcie_outcome(dom: Seq<char>) -> CheckOutcome {
    if !pcie_applicable(dom) {
        CheckOutcome::Clean
    } else if dom_chassis(dom).len() == 0 {
        CheckOutcome::Warned
    } else {
        let bt = xpath_select(dom, bus_xpath()).unwrap();
        if !all_parse_int(bt) {
            CheckOutcome::BadNumber(Ghost(first_bad_int(bt)))
        } else if spec_free_ports(dom_chassis(dom), parsed_ints(bt)).len() == 0 {
            CheckOutcome::Warned
        } else {
            CheckOutcome::Clean
        }
    }
}

/// The message of `check_pcie_root_ports`.
pub open spec fn pcie_msg() -> Seq<char> {
    "No free PCIe root ports found, hotplug might be not possible"@
}

/// Whether the root port check applies to the domain.
fn pcie_applies(dom: &XmlDoc) -> (r: bool)
    ensures
        r == pcie_applicable(dom@),
{
    proof {
        reveal_strlit("//domain/@type");
        reveal_strlit("//domain/os/type/@machine");
    }
    let virttype = match xpath_eval_or_none(dom, "//domain/@type") {
        Some(x) => x,
        None => return false,
    };
    let kvm = "kvm".to_owned();
    let qemu = "qemu".to_owned();
    if virttype != kvm && virttype != qemu {
        return false;
    }
    let machine = match xpath_eval_or_none(dom, "//domain/os/type/@machine") {
        Some(x) => x,
        None => return false,
    };
    contains_str(machine.as_str(), "q35")
}

/// Notes (domain, notice) that hotplug might be impossible when a KVM or
/// QEMU q35 domain has no free PCIe root port: every controller chassis is
/// the bus of some PCI device address. Bus numbers are read as `parse_int`
/// does; one that does not read fails the check.
pub fn check_pcie_root_ports(vl: &mut VirtLint, dom: &XmlDoc, tags: &Vec<String>) -> (r: Result<
    (),
    VirtLintError,
>)
    requires
        pcie_readable(dom@),
    ensures
        outcome_holds(
            pcie_outcome(dom@),
            r,
            old(vl).spec_warnings(),
            final(vl).spec_warnings(),
            tags.deep_view(),
            WarningDomain::Domain,
            WarningLevel::Notice,
            pcie_msg(),
        ),
{
    if !pcie_applies(dom) {
        return Ok(());
    }
    proof {
        reveal_strlit("//domain/devices/controller[@type='pci']/target/@chassis");
        reveal_strlit("//domain/devices//address[@type='pci']/@bus");
    }
    let texts = match xpath_nodes_raw(
        dom,
        "//domain/devices/controller[@type='pci']/target/@chassis",
    ) {
        Some(t) => t,
        None => {
            assert(false);
            return Ok(());
        },
    };
    let chassis = match parse_all_u64(&texts) {
        Some(c) => c,
        None => {
            assert(false);
            return Ok(());
        },
    };
    let mut free: Vec<u64> = Vec::new();
    if chassis.len() > 0 {
        let bus_texts = match xpath_nodes_raw(
            dom,
            "//domain/devices//address[@type='pci']/@bus",
        ) {
            Some(t) => t,
            None => {
                assert(false);
                return Ok(());
            },
        };
        let buses = match parse_all_int(&bus_texts) {
            Ok(b) => b,
            Err(t) => return Err(VirtLintError::ParseInt(t)),
        };
        free = free_ports(&chassis, &buses);
    }
    if free.len() == 0 {
        vl.add_warning(
            clone_strings(tags),
            WarningDomain::Domain,
            WarningLevel::Notice,
            String::from_str("No free PCIe root ports found, hotplug might be not possible"),
        );
    }
    Ok(())
}

/// `check_pcie_root_ports` where the domain's controllers and addresses are
/// readable; `None`, and the log untouched, elsewhere.
pub fn try_check_pcie_root_ports(vl: &mut VirtLint, dom: &XmlDoc, tags: &Vec<String>) -> (r: Option<
    Result<(), VirtLintError>,
>)
    ensures
        r is None <==> !pcie_readable(dom@),
        r is None ==> final(vl).spec_warnings() == old(vl).spec_warnings(),
        r matches Some(res) ==> outcome_holds(
            pcie_outcome(dom@),
            res,
            old(vl).spec_warnings(),
            final(vl).spec_warnings(),
            tags.deep_view(),
            WarningDomain::Domain,
            WarningLevel::Notice,
            pcie_msg(),
        ),
{
    if pcie_applies(dom) {
        proof {
            reveal_strlit("//domain/devices/controller[@type='pci']/target/@chassis");
            reveal_strlit("//domain/devices//address[@type='pci']/@bus");
        }
        match xpath_nodes_raw(
            dom,
            "//domain/devices/controller[@type='pci']/target/@chassis",
        ) {
            None => return None,
            Some(t) => {
                if parse_all_u64(&t).is_none() {
                    return None;
                }
                if t.len() > 0 && xpath_nodes_raw(
                    dom,
                    "//domain/devices//address[@type='pci']/@bus",
                ).is_none() {
                    return None;
                }
            },
        }
    }
    Some(check_pcie_root_ports(vl, dom, tags))
}

/// `acc` with the condition `cond` joined by `and`.
pub open spec fn join_cond(acc: Seq<char>, cond: Seq<char>) -> Seq<char> {
    if acc.len() == 0 {
        cond
    } else {
        acc + " and "@ + cond
    }
}

/// `acc` with `name='value'` joined, where there is a value.
pub open spec fn join_eq(acc: Seq<char>, name: Seq<char>, value: Option<Seq<char>>) -> Seq<char> {
    match value {
        Some(v) => join_cond(acc, name + "='"@ + v + "'"@),
        None => acc,
    }
}

/// The predicate on a guest `arch` element of the capabilities that asks
/// for the given architecture, emulator, machine and virtualization type.
pub open spec fn guest_arch_filter(
    emulator: Option<Seq<char>>,
    arch: Option<Seq<char>>,
    machine: Option<Seq<char>>,
    virttype: Option<Seq<char>>,
) -> Seq<char> {
    let a = join_eq(Seq::<char>::empty(), "@name"@, arch);
    let b = join_eq(a, "emulator/text()"@, emulator);
    let c = join_eq(b, "machine/text()"@, machine);
    join_eq(c, "domain/@type"@, virttype)
}

/// The query for a guest `arch` element of the capabilities that matches.
pub open spec fn guest_arch_xpath(
    emulator: Option<Seq<char>>,
    arch: Option<Seq<char>>,
    machine: Option<Seq<char>>,
    virttype: Option<Seq<char>>,
) -> Seq<char> {
    let f = guest_arch_filter(emulator, arch, machine, virttype);
    if f.len() == 0 {
        "//capabilities/guest/arch"@
    } else {
        "//capabilities/guest/arch"@ + "["@ + f + "]"@
    }
}

proof fn lemma_no_nul_concat(a: Seq<char>, b: Seq<char>)
    requires
        no_nul(a),
        no_nul(b),
    ensures
        no_nul(a + b),
{
    assert forall|i: int| 0 <= i < (a + b).len() implies (a + b)[i] != '\0' by {
        if i < a.len() {
            assert((a + b)[i] == a[i]);
        } else {
            assert((a + b)[i] == b[i - a.len()]);
        }
    }
}

/// Appends the condition `name='value'` to `acc`, joined by `and`.
fn push_eq(acc: &mut String, name: &str, value: &Option<String>)
    requires
        no_nul(old(acc)@),
        no_nul(name@),
        value matches Some(v) ==> no_nul(v@),
    ensures
        final(acc)@ == join_eq(
            old(acc)@,
            name@,
            match value {
                Some(v) => Some(v@),
                None => None,
            },
        ),
        no_nul(final(acc)@),
{
    proof {
        reveal_strlit(" and ");
        reveal_strlit("='");
        reveal_strlit("'");
    }
    if let Some(v) = value {
        let ghost pre = acc@;
        if !acc.as_str().is_empty() {
            acc.append(" and ");
            proof {
                lemma_no_nul_concat(pre, " and "@);
            }
        }
        let ghost mid = acc@;
        acc.append(name);
        acc.append("='");
        acc.append(v.as_str());
        acc.append("'");
        proof {
            lemma_no_nul_concat(mid, name@);
            lemma_no_nul_concat(mid + name@, "='"@);
            lemma_no_nul_concat(mid + name@ + "='"@, v@);
            lemma_no_nul_concat(mid + name@ + "='"@ + v@, "'"@);
            lemma_no_nul_concat(name@, "='"@);
            lemma_no_nul_concat(name@ + "='"@, v@);
            lemma_no_nul_concat(name@ + "='"@ + v@, "'"@);
            assert(acc@ =~= join_eq(pre, name@, Some(v@)));
        }
    }
}

/// The query for a guest `arch` element of the capabilities that matches
/// the given values.
pub fn build_guest_arch_xpath(
    emulator: &Option<String>,
    arch: &Option<String>,
    machine: &Option<String>,
    virttype: &Option<String>,
) -> (r: String)
    requires
        emulator matches Some(v) ==> no_nul(v@),
        arch matches Some(v) ==> no_nul(v@),
        machine matches Some(v) ==> no_nul(v@),
        virttype matches Some(v) ==> no_nul(v@),
    ensures
        r@ == guest_arch_xpath(
            match emulator {
                Some(v) => Some(v@),
                None => None,
            },
            match arch {
                Some(v) => Some(v@),
                None => None,
            },
            match machine {
                Some(v) => Some(v@),
                None => None,
            },
            match virttype {
                Some(v) => Some(v@),
                None => None,
            },
        ),
        no_nul(r@),
{
    proof {
        reveal_strlit("@name");
        reveal_strlit("emulator/text()");
        reveal_strlit("machine/text()");
        reveal_strlit("domain/@type");
        reveal_strlit("//capabilities/guest/arch");
        reveal_strlit("[");
        reveal_strlit("]");
    }
    let mut f = String::new();
    push_eq(&mut f, "@name", arch);
    push_eq(&mut f, "emulator/text()", emulator);
    push_eq(&mut f, "machine/text()", machine);
    push_eq(&mut f, "domain/@type", virttype);
    let mut top = String::from_str("//capabilities/guest/arch");
    if !f.as_str().is_empty() {
        let ghost f0 = f@;
        top.append("[");
        top.append(f.as_str());
        top.append("]");
        proof {
            lemma_no_nul_concat("//capabilities/guest/arch"@, "["@);
            lemma_no_nul_concat("//capabilities/guest/arch"@ + "["@, f0);
            lemma_no_nul_concat("//capabilities/guest/arch"@ + "["@ + f0, "]"@);
        }
    }
    top
}

/// The queries that `check_node_kvm` puts to the capabilities for the
/// emulator, architecture, machine and virtualization type it looks for.
pub open spec fn emulator_xpath() -> Seq<char> {
    "//domain/devices/emulator"@
}

/// See `emulator_xpath`.
pub open spec fn arch_xpath() -> Seq<char> {
    "//domain/os/type/@arch"@
}

/// The query for a matching guest architecture in the capabilities `caps`.
pub open spec fn kvm_query(caps: Seq<char>) -> Seq<char> {
    guest_arch_xpath(
        dom_first(caps, emulator_xpath()),
        dom_first(caps, arch_xpath()),
        dom_first(caps, machine_xpath()),
        dom_first(caps, virt_type_xpath()),
    )
}

/// What `check_node_kvm` ends in: when no domain capabilities were found
/// for the domain, a warning unless the capabilities are there and list a
/// matching guest architecture.
pub open spec fn kvm_outcome(domcaps_failed: bool, caps: Option<Seq<char>>) -> CheckOutcome {
    if !domcaps_failed {
        CheckOutcome::Clean
    } else {
        match caps {
            None => CheckOutcome::Warned,
            Some(c) => if !xml_parses(c) {
                CheckOutcome::BadXml
            } else if dom_first(c, kvm_query(c)) is None {
                CheckOutcome::Warned
            } else {
                CheckOutcome::Clean
            },
        }
    }
}

/// The message of `check_node_kvm`.
pub open spec fn kvm_msg() -> Seq<char> {
    "No suitable emulator found"@
}

/// Warns (node, warning) that no suitable emulator was found when looking
/// up domain capabilities for the domain failed (`domcaps_failed`) and the
/// host capabilities `caps`, if there are any, list no guest architecture
/// that matches.
pub fn check_node_kvm(
    vl: &mut VirtLint,
    domcaps_failed: bool,
    caps: Option<&str>,
    tags: &Vec<String>,
) -> (r: Result<(), VirtLintError>)
    ensures
        outcome_holds(
            kvm_outcome(domcaps_failed, opt_view(caps)),
            r,
            old(vl).spec_warnings(),
            final(vl).spec_warnings(),
            tags.deep_view(),
            WarningDomain::Node,
            WarningLevel::Warning,
            kvm_msg(),
        ),
{
    if !domcaps_failed {
        return Ok(());
    }
    let mut emit_warning = true;
    if let Some(c) = caps {
        let doc = parse_xml(c)?;
        proof {
            reveal_strlit("//domain/devices/emulator");
            reveal_strlit("//domain/os/type/@arch");
            reveal_strlit("//domain/os/type/@machine");
            reveal_strlit("//domain/@type");
        }
        let emulator = xpath_eval_or_none(&doc, "//domain/devices/emulator");
        let arch = xpath_eval_or_none(&doc, "//domain/os/type/@arch");
        let machine = xpath_eval_or_none(&doc, "//domain/os/type/@machine");
        let virttype = xpath_eval_or_none(&doc, "//domain/@type");
        let top = build_guest_arch_xpath(&emulator, &arch, &machine, &virttype);
        emit_warning = xpath_eval_or_none(&doc, top.as_str()).is_none();
    }
    if emit_warning {
        vl.add_warning(
            clone_strings(tags),
            WarningDomain::Node,
            WarningLevel::Warning,
            String::from_str("No suitable emulator found"),
        );
    }
    Ok(())
}

} // verus!
