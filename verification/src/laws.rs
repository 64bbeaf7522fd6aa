//! Properties of the library as a whole.

use vstd::prelude::*;
use crate::checks::{
    dom_first, machine_xpath, numa_caps_readable, numa_free_outcome, numa_memory_xpath, numa_outcome,
    spec_domain_memory, virt_type_xpath, all_parse_int, bus_xpath, chassis_xpath, dom_chassis, lemma_free_ports_empty, parsed_ints, pcie_applicable,
    pcie_outcome, CheckOutcome,
};
use crate::paths::{lemma_last_dot, lemma_last_dot_at, spec_is_validator_file, ancestor_tag, ext_dot, last_dot, spec_extension, spec_stem, tags_down, spec_tags_for_relative};
use crate::registry::{builtin_table, first_unknown, selected_upto, spec_selected, table_tags, wanted, BuiltinCheck};
use crate::warning::{
    script_warning_added, spec_domain_name, spec_domain_number, spec_level_name, spec_level_number,
    spec_warning_constant, VirtLintWarning, WarningDomain, WarningLevel,
};
use crate::numbers::{
    all_digits, decimal_digits, digit_of, digit_table, digits_value, hex_digits_lower,
    hex_digits_upper, lemma_digit_tables, lemma_numeral_value, numeral, spec_parse_i32,
    spec_parse_int, spec_parse_u64, unsigned_body,
};
use crate::xml::{xml_parses, xpath_select};

verus! {

/// A warning domain's number names it alone, and is one that
/// `WarningDomain::try_from_i32` accepts: converting there and back gives
/// the domain again.
pub proof fn law_domain_number_roundtrip(d: WarningDomain, e: WarningDomain)
    ensures
        0 <= spec_domain_number(d) <= 1,
        spec_domain_number(d) == spec_domain_number(e) ==> d == e,
{
}

/// A warning level's number names it alone, and is one that
/// `WarningLevel::try_from_i32` accepts: converting there and back gives the
/// level again.
pub proof fn law_level_number_roundtrip(l: WarningLevel, m: WarningLevel)
    ensures
        0 <= spec_level_number(l) <= 2,
        spec_level_number(l) == spec_level_number(m) ==> l == m,
{
}

/// The constant a script reads off `vl` under a domain's or a level's name
/// is that domain's or level's number, one that `add_script_warning`
/// accepts.
pub proof fn law_warning_constants(d: WarningDomain, l: WarningLevel)
    ensures
        spec_warning_constant(spec_domain_name(d)) == Some(spec_domain_number(d)),
        spec_warning_constant(spec_level_name(l)) == Some(spec_level_number(l)),
        0 <= spec_domain_number(d) <= 1,
        0 <= spec_level_number(l) <= 2,
{
    reveal_strlit("WarningDomain_Domain");
    reveal_strlit("WarningDomain_Node");
    reveal_strlit("WarningLevel_Error");
    reveal_strlit("WarningLevel_Warning");
    reveal_strlit("WarningLevel_Notice");
    // Each name differs from those tested before it at its length or at
    // the eighth character.
    assert("WarningDomain_Node"@.len() != "WarningDomain_Domain"@.len());
    assert("WarningLevel_Error"@[7] != "WarningDomain_Domain"@[7]);
    assert("WarningLevel_Error"@[7] != "WarningDomain_Node"@[7]);
    assert("WarningLevel_Warning"@[7] != "WarningDomain_Domain"@[7]);
    assert("WarningLevel_Warning"@[7] != "WarningDomain_Node"@[7]);
    assert("WarningLevel_Warning"@.len() != "WarningLevel_Error"@.len());
    assert("WarningLevel_Notice"@[7] != "WarningDomain_Domain"@[7]);
    assert("WarningLevel_Notice"@[7] != "WarningDomain_Node"@[7]);
    assert("WarningLevel_Notice"@.len() != "WarningLevel_Error"@.len());
    assert("WarningLevel_Notice"@.len() != "WarningLevel_Warning"@.len());
}

/// A warning that a script adds with the numbers of a domain and a level
/// is recorded with that domain and that level, after the warnings already
/// there, with the script's tags (sorted) and its message.
pub proof fn law_script_warning_round_trip(
    d: WarningDomain,
    l: WarningLevel,
    before: Seq<VirtLintWarning>,
    after: Seq<VirtLintWarning>,
    tags: Seq<Seq<char>>,
    msg: Seq<char>,
)
    requires
        script_warning_added(
            before,
            after,
            tags,
            spec_domain_number(d),
            spec_level_number(l),
            msg,
        ),
    ensures
        after.drop_last() == before,
        after.last().domain == d,
        after.last().level == l,
        after.last().msg@ == msg,
        after.last().tags.deep_view().to_multiset() == tags.to_multiset(),
{
    law_domain_number_roundtrip(after.last().domain, d);
    law_level_number_roundtrip(after.last().level, l);
}

proof fn lemma_selected_upto(
    table: Seq<(BuiltinCheck, Seq<Seq<char>>)>,
    tags: Seq<Seq<char>>,
    n: nat,
    k: usize,
)
    requires
        n <= table.len(),
        table.len() <= usize::MAX,
    ensures
        selected_upto(table, tags, n).contains(k) <==> k < n && wanted(tags, table[k as int].1),
        forall|a: int, b: int|
            0 <= a < b < selected_upto(table, tags, n).len() ==> selected_upto(table, tags, n)[a]
                < selected_upto(table, tags, n)[b],
        forall|a: int|
            0 <= a < selected_upto(table, tags, n).len() ==> selected_upto(table, tags, n)[a] < n,
    decreases n,
{
    if n > 0 {
        lemma_selected_upto(table, tags, (n - 1) as nat, k);
        let p = selected_upto(table, tags, (n - 1) as nat);
        if wanted(tags, table[n - 1].1) {
            let q = p.push((n - 1) as usize);
            assert(q[q.len() - 1] == (n - 1) as usize);
            assert(q =~= selected_upto(table, tags, n));
            if k == n - 1 {
                assert(q.contains(k));
            }
            assert forall|a: int, b: int| 0 <= a < b < q.len() implies q[a] < q[b] by {
                if b == q.len() - 1 {
                    assert(p[a] < n - 1);
                } else {
                    assert(q[a] == p[a] && q[b] == p[b]);
                }
            }
            if k < n - 1 && wanted(tags, table[k as int].1) {
                let w = choose|w: int| 0 <= w < p.len() && p[w] == k;
                assert(q[w] == k);
            }
            if q.contains(k) && k != n - 1 {
                let w = choose|w: int| 0 <= w < q.len() && q[w] == k;
                if w < p.len() {
                    assert(p[w] == k);
                }
            }
        }
    }
}

/// With no tags asked for, every built-in validator runs, in table order;
/// with tags, exactly those that carry one of them run, in table order.
pub proof fn law_selection(table: Seq<(BuiltinCheck, Seq<Seq<char>>)>, tags: Seq<Seq<char>>, k: usize)
    requires
        table.len() <= usize::MAX,
    ensures
        spec_selected(table, tags).contains(k) <==> k < table.len() && (tags.len() == 0
            || exists|t: Seq<char>| #[trigger] table[k as int].1.contains(t) && tags.contains(t)),
        forall|a: int, b: int|
            0 <= a < b < spec_selected(table, tags).len() ==> spec_selected(table, tags)[a]
                < spec_selected(table, tags)[b],
{
    lemma_selected_upto(table, tags, table.len(), k);
}

/// Every tag that `Validators::list_tags` lists is accepted by
/// `Validators::validate_tags`: a request made of listed tags has no
/// unknown tag.
pub proof fn law_listed_tags_are_known(
    table: Seq<(BuiltinCheck, Seq<Seq<char>>)>,
    script_tags: Set<Seq<char>>,
    tags: Seq<Seq<char>>,
)
    requires
        forall|i: int| 0 <= i < tags.len() ==> (table_tags(table) + script_tags).contains(
            #[trigger] tags[i],
        ),
    ensures
        first_unknown(tags, table_tags(table) + script_tags) is None,
{
}

/// The built-in validators answer to the tags `TAG_1` to `TAG_4`.
pub proof fn law_builtin_tags()
    ensures
        table_tags(builtin_table()) == set!["TAG_1"@, "TAG_2"@, "TAG_3"@, "TAG_4"@],
{
    let t = builtin_table();
    assert(t[0].1[0] == "TAG_1"@ && t[0].1[1] == "TAG_2"@);
    assert(t[2].1[1] == "TAG_3"@);
    assert(t[3].1[0] == "TAG_4"@);
    assert(t[0].1.contains("TAG_1"@) && t[0].1.contains("TAG_2"@));
    assert(t[2].1.contains("TAG_3"@));
    assert(t[3].1.contains("TAG_4"@));
    assert forall|s: Seq<char>| table_tags(t).contains(s) implies set!["TAG_1"@, "TAG_2"@, "TAG_3"@, "TAG_4"@].contains(s) by {
        let i = choose|i: int| 0 <= i < t.len() && (#[trigger] t[i]).1.contains(s);
        let j = choose|j: int| 0 <= j < t[i].1.len() && t[i].1[j] == s;
    }
    assert(table_tags(t) =~= set!["TAG_1"@, "TAG_2"@, "TAG_3"@, "TAG_4"@]);
}

/// Where a file name has an extension, it is its stem, a dot and the
/// extension; where it has none, the stem is the whole name.
pub proof fn law_stem_and_extension(name: Seq<char>)
    ensures
        spec_extension(name) matches Some(e) ==> name == spec_stem(name) + "."@ + e,
        spec_extension(name) is None ==> spec_stem(name) == name,
{
    reveal_strlit(".");
    if let Some(i) = ext_dot(name) {
        lemma_last_dot_in(name);
        assert(name =~= name.take(i) + "."@ + name.skip(i + 1));
    }
}

proof fn lemma_last_dot_in(name: Seq<char>)
    ensures
        last_dot(name) matches Some(i) ==> 0 <= i < name.len() && name[i] == '.',
    decreases name.len(),
{
    if name.len() > 0 && name.last() != '.' {
        lemma_last_dot_in(name.drop_last());
    }
}

proof fn lemma_stem_nonempty(name: Seq<char>)
    requires
        name.len() > 0,
    ensures
        spec_stem(name).len() > 0,
{
    lemma_last_dot_in(name);
}

proof fn lemma_tags_down(rel: Seq<Seq<char>>, n: nat)
    requires
        n <= rel.len(),
        forall|i: int| 0 <= i < rel.len() ==> (#[trigger] rel[i]).len() > 0,
    ensures
        tags_down(rel, n).len() == n,
        forall|i: int| 0 <= i < n ==> tags_down(rel, n)[i] == ancestor_tag(rel, rel.len() - i),
    decreases n,
{
    if n > 0 {
        lemma_tags_down(rel, (n - 1) as nat);
        let k = rel.len() - (n - 1);
        if k == rel.len() {
            lemma_stem_nonempty(rel[k - 1]);
            lemma_join_nonempty(rel.take(k - 1).push(spec_stem(rel[k - 1])));
        } else {
            lemma_join_nonempty(rel.take(k));
        }
    }
}

proof fn lemma_join_nonempty(c: Seq<Seq<char>>)
    requires
        c.len() > 0,
        c.last().len() > 0,
    ensures
        crate::paths::join_path(c).len() > 0,
{
    reveal_strlit("/");
}

/// A validator script at a relative path of non-empty components gets one
/// tag per component: the path itself with the extension of its file name
/// removed, then each directory it lies in, longest first, unchanged (so
/// `a/b/check_x.py` gets `a/b/check_x`, `a/b` and `a`, and `x.d/check_a.py`
/// gets `x.d/check_a` and `x.d`).
pub proof fn law_tags_are_ancestors(rel: Seq<Seq<char>>)
    requires
        forall|i: int| 0 <= i < rel.len() ==> (#[trigger] rel[i]).len() > 0,
    ensures
        spec_tags_for_relative(rel).len() == rel.len(),
        forall|i: int|
            0 <= i < rel.len() ==> #[trigger] spec_tags_for_relative(rel)[i] == ancestor_tag(
                rel,
                rel.len() - i,
            ),
{
    lemma_tags_down(rel, rel.len());
}

/// The root port check warns on an applicable domain with PCI(e)
/// controllers and readable buses exactly when every controller's chassis
/// is the bus of some device address.
pub proof fn law_pcie_warns_iff_all_taken(dom: Seq<char>)
    requires
        pcie_applicable(dom),
        dom_chassis(dom).len() > 0,
        all_parse_int(xpath_select(dom, bus_xpath()).unwrap()),
    ensures
        pcie_outcome(dom) == CheckOutcome::Warned <==> forall|i: int|
            0 <= i < dom_chassis(dom).len() ==> parsed_ints(
                xpath_select(dom, bus_xpath()).unwrap(),
            ).contains(#[trigger] dom_chassis(dom)[i]),
        pcie_outcome(dom) != CheckOutcome::Warned ==> pcie_outcome(dom) == CheckOutcome::Clean,
{
    lemma_free_ports_empty(dom_chassis(dom), parsed_ints(xpath_select(dom, bus_xpath()).unwrap()));
}

/// More PCI device addresses never free a root port: where the root port
/// check warns on a domain, it warns too on the same domain with more
/// device addresses, their bus numbers readable, and the same controllers.
pub proof fn law_pcie_more_buses_keep_warning(dom1: Seq<char>, dom2: Seq<char>)
    requires
        pcie_applicable(dom1) == pcie_applicable(dom2),
        xpath_select(dom1, chassis_xpath()) is Some,
        xpath_select(dom2, chassis_xpath()) == xpath_select(dom1, chassis_xpath()),
        xpath_select(dom1, bus_xpath()) is Some,
        xpath_select(dom2, bus_xpath()) is Some,
        forall|i: int|
            0 <= i < xpath_select(dom1, bus_xpath()).unwrap().len() ==> xpath_select(
                dom2,
                bus_xpath(),
            ).unwrap().contains(#[trigger] xpath_select(dom1, bus_xpath()).unwrap()[i]),
        forall|i: int|
            0 <= i < xpath_select(dom2, bus_xpath()).unwrap().len() ==> spec_parse_int(
                #[trigger] xpath_select(dom2, bus_xpath()).unwrap()[i],
            ) is Some || xpath_select(dom1, bus_xpath()).unwrap().contains(
                xpath_select(dom2, bus_xpath()).unwrap()[i],
            ),
    ensures
        pcie_outcome(dom1) == CheckOutcome::Warned ==> pcie_outcome(dom2) == CheckOutcome::Warned,
{
    let b1 = xpath_select(dom1, bus_xpath()).unwrap();
    let b2 = xpath_select(dom2, bus_xpath()).unwrap();
    let ch = dom_chassis(dom1);
    assert(dom_chassis(dom2) == ch);
    if pcie_applicable(dom1) && ch.len() > 0 && pcie_outcome(dom1) == CheckOutcome::Warned {
        assert(all_parse_int(b1));
        assert forall|m: int| 0 <= m < b2.len() implies (#[trigger] spec_parse_int(b2[m])) is Some by {
            if spec_parse_int(b2[m]) is None {
                let k = choose|k: int| 0 <= k < b1.len() && b1[k] == b2[m];
                assert(spec_parse_int(b1[k]) is Some);
            }
        }
        assert(all_parse_int(b2));
        lemma_free_ports_empty(ch, parsed_ints(b1));
        lemma_free_ports_empty(ch, parsed_ints(b2));
        assert forall|i: int| 0 <= i < ch.len() implies parsed_ints(b2).contains(#[trigger] ch[i]) by {
            assert(parsed_ints(b1).contains(ch[i]));
            let k = choose|k: int| 0 <= k < parsed_ints(b1).len() && parsed_ints(b1)[k] == ch[i];
            assert(b2.contains(b1[k]));
            let m = choose|m: int| 0 <= m < b2.len() && b2[m] == b1[k];
            assert(parsed_ints(b2)[m] == ch[i]);
        }
    }
}

/// Adding a warning with the constants that a script reads off `vl` under
/// the names of a domain and a level succeeds (the numbers are in range)
/// and records a warning of that domain and that level, after the warnings
/// already there, with the script's tags (sorted) and its message.
pub proof fn law_add_warning_by_constant_names(
    dn: Seq<char>,
    ln: Seq<char>,
    d: WarningDomain,
    l: WarningLevel,
    before: Seq<VirtLintWarning>,
    after: Seq<VirtLintWarning>,
    tags: Seq<Seq<char>>,
    msg: Seq<char>,
)
    requires
        dn == spec_domain_name(d),
        ln == spec_level_name(l),
        script_warning_added(
            before,
            after,
            tags,
            spec_warning_constant(dn).unwrap(),
            spec_warning_constant(ln).unwrap(),
            msg,
        ),
    ensures
        spec_warning_constant(dn) matches Some(n) && 0 <= n <= 1,
        spec_warning_constant(ln) matches Some(n) && 0 <= n <= 2,
        after.drop_last() == before,
        after.len() == before.len() + 1,
        after.last().domain == d,
        after.last().level == l,
        after.last().msg@ == msg,
        after.last().tags.deep_view().to_multiset() == tags.to_multiset(),
{
    law_warning_constants(d, l);
    law_script_warning_round_trip(d, l, before, after, tags, msg);
}

/// A numeral's first character is a digit, so never a sign.
proof fn lemma_numeral_unsigned(n: nat, radix: nat, table: Seq<char>)
    requires
        radix == 10 || radix == 16,
        digit_table(table, radix),
    ensures
        numeral(n, radix, table).len() > 0,
        all_digits(numeral(n, radix, table), radix),
        digits_value(numeral(n, radix, table), radix) == n,
        numeral(n, radix, table)[0] != '+',
        numeral(n, radix, table)[0] != '-',
{
    lemma_numeral_value(n, radix, table);
    let s = numeral(n, radix, table);
    assert(digit_of(s[0], radix) is Some);
    assert(digit_of('+', radix) is None);
    assert(digit_of('-', radix) is None);
}

proof fn lemma_hex_numeral_reads(n: u64, table: Seq<char>)
    requires
        digit_table(table, 16),
    ensures
        spec_parse_int("0x"@ + numeral(n as nat, 16, table)) == Some(n),
{
    reveal_strlit("0x");
    let s = numeral(n as nat, 16, table);
    lemma_numeral_unsigned(n as nat, 16, table);
    let t = "0x"@ + s;
    assert(t[0] == '0' && t[1] == 'x');
    assert(t.skip(2) =~= s);
    assert(unsigned_body(s) == s);
}

/// `parse_int` reads every `u64` written in hexadecimal after `0x`, in lower
/// or in upper case digits (libvirt writes PCI bus numbers so).
pub proof fn law_parse_int_reads_hex(n: u64)
    ensures
        spec_parse_int("0x"@ + numeral(n as nat, 16, hex_digits_lower())) == Some(n),
        spec_parse_int("0x"@ + numeral(n as nat, 16, hex_digits_upper())) == Some(n),
{
    lemma_digit_tables();
    lemma_hex_numeral_reads(n, hex_digits_lower());
    lemma_hex_numeral_reads(n, hex_digits_upper());
}

/// `parse_u64` and `parse_int` read every `u64` written in decimal.
pub proof fn law_parse_reads_decimal(n: u64)
    ensures
        spec_parse_u64(numeral(n as nat, 10, decimal_digits())) == Some(n),
        spec_parse_int(numeral(n as nat, 10, decimal_digits())) == Some(n),
{
    lemma_digit_tables();
    let s = numeral(n as nat, 10, decimal_digits());
    lemma_numeral_unsigned(n as nat, 10, decimal_digits());
    assert(unsigned_body(s) == s);
    if s.len() >= 2 {
        assert(digit_of(s[1], 10) is Some);
        assert(digit_of('x', 10) is None);
    }
}

/// `parse_i32` reads every `i32` written in decimal, with a `-` before a
/// negative one.
pub proof fn law_parse_i32_reads_decimal(n: i32)
    ensures
        n >= 0 ==> spec_parse_i32(numeral(n as nat, 10, decimal_digits())) == Some(n),
        n < 0 ==> spec_parse_i32(seq!['-'] + numeral((0 - n) as nat, 10, decimal_digits()))
            == Some(n),
{
    lemma_digit_tables();
    if n >= 0 {
        let s = numeral(n as nat, 10, decimal_digits());
        lemma_numeral_unsigned(n as nat, 10, decimal_digits());
        assert(unsigned_body(s) == s);
    } else {
        let s = numeral((0 - n) as nat, 10, decimal_digits());
        lemma_numeral_unsigned((0 - n) as nat, 10, decimal_digits());
        let t = seq!['-'] + s;
        assert(t[0] == '-');
        assert(t.drop_first() =~= s);
    }
}

/// The NUMA check looks at every cell: on capabilities that parse and a
/// readable domain memory `m`, it stays quiet exactly when some cell, at
/// any position, lists strictly more memory than `m`, and warns otherwise.
pub proof fn law_numa_fits_any_cell(caps: Seq<char>, dom: Seq<char>, m: u64)
    requires
        xml_parses(caps),
        numa_caps_readable(Some(caps)),
        spec_domain_memory(dom) == Some(m),
    ensures
        numa_outcome(Some(caps), dom) == CheckOutcome::Clean <==> exists|i: int|
            0 <= i < xpath_select(caps, numa_memory_xpath()).unwrap().len() && spec_parse_u64(
                #[trigger] xpath_select(caps, numa_memory_xpath()).unwrap()[i],
            ).unwrap() > m,
        numa_outcome(Some(caps), dom) != CheckOutcome::Clean ==> numa_outcome(Some(caps), dom)
            == CheckOutcome::Warned,
{
    let t = xpath_select(caps, numa_memory_xpath()).unwrap();
    let mems = crate::checks::numa_memories(caps);
    assert(mems.len() == t.len());
    assert forall|i: int| 0 <= i < t.len() implies mems[i] == spec_parse_u64(#[trigger] t[i]).unwrap() by {}
    if exists|i: int| 0 <= i < t.len() && spec_parse_u64(#[trigger] t[i]).unwrap() > m {
        let i = choose|i: int| 0 <= i < t.len() && spec_parse_u64(#[trigger] t[i]).unwrap() > m;
        assert(mems[i] > m);
    }
    if crate::checks::fits_some(mems, m) {
        let i = choose|i: int| 0 <= i < mems.len() && #[trigger] mems[i] > m;
        assert(spec_parse_u64(t[i]).unwrap() > m);
    }
}

/// The free-memory check looks at every cell: with the free memory `free`
/// of the cells known and a readable domain memory `m`, it stays quiet
/// exactly when some cell, the first one too, has strictly more than `m`
/// free, and warns otherwise.
pub proof fn law_numa_free_fits_any_cell(free: Seq<u64>, dom: Seq<char>, m: u64)
    requires
        spec_domain_memory(dom) == Some(m),
    ensures
        numa_free_outcome(Some(free), dom) == CheckOutcome::Clean <==> exists|i: int|
            0 <= i < free.len() && #[trigger] free[i] > m,
        numa_free_outcome(Some(free), dom) != CheckOutcome::Clean ==> numa_free_outcome(
            Some(free),
            dom,
        ) == CheckOutcome::Warned,
{
}

/// The root port check applies to a domain exactly when its type is `kvm`
/// or `qemu` and its machine type contains `q35`; such a domain without
/// PCI(e) controllers gets the warning.
pub proof fn law_pcie_applies_to_kvm_and_qemu_q35(dom: Seq<char>, t: Seq<char>, machine: Seq<char>)
    requires
        dom_first(dom, virt_type_xpath()) == Some(t),
        dom_first(dom, machine_xpath()) == Some(machine),
    ensures
        pcie_applicable(dom) <==> ((t == "kvm"@ || t == "qemu"@) && exists|k: int|
            0 <= k && k + 3 <= machine.len() && #[trigger] machine.subrange(k, k + 3) == "q35"@),
        pcie_applicable(dom) && xpath_select(dom, chassis_xpath()) == Some(Seq::<Seq<char>>::empty())
            ==> pcie_outcome(dom) == CheckOutcome::Warned,
{
    reveal_strlit("q35");
    assert("q35"@.len() == 3);
    if pcie_applicable(dom) && xpath_select(dom, chassis_xpath()) == Some(Seq::<Seq<char>>::empty()) {
        assert(dom_chassis(dom).len() == 0);
    }
}

/// A file is a validator script exactly when its name starts with the
/// prefix and ends in a `.` and the extension, the extension holds no `.`,
/// and some name is left before that dot (the name is not `..`): so
/// `check_numa.py~` or `check_numa.py.bak` is no Python validator.
pub proof fn law_validator_file_extension_exact(name: Seq<char>, prefix: Seq<char>, ext: Seq<char>)
    ensures
        spec_is_validator_file(name, prefix, ext) <==> {
            &&& prefix.len() <= name.len()
            &&& name.take(prefix.len() as int) == prefix
            &&& name != ".."@
            &&& name.len() >= ext.len() + 2
            &&& name[name.len() - ext.len() - 1] == '.'
            &&& name.skip(name.len() - ext.len()) == ext
            &&& forall|j: int| 0 <= j < ext.len() ==> #[trigger] ext[j] != '.'
        },
{
    lemma_last_dot(name);
    let k = name.len() - ext.len() - 1;
    if spec_is_validator_file(name, prefix, ext) {
        let i = last_dot(name).unwrap();
        assert(name.skip(i + 1) == ext);
        assert forall|j: int| 0 <= j < ext.len() implies #[trigger] ext[j] != '.' by {
            assert(ext[j] == name[i + 1 + j]);
        }
    }
    if prefix.len() <= name.len() && name.take(prefix.len() as int) == prefix && name != ".."@
        && name.len() >= ext.len() + 2 && name[k] == '.' && name.skip(name.len() - ext.len()) == ext
        && forall|j: int| 0 <= j < ext.len() ==> #[trigger] ext[j] != '.' {
        assert forall|j: int| k < j < name.len() implies name[j] != '.' by {
            assert(name[j] == ext[j - k - 1]);
        }
        lemma_last_dot_at(name, k);
        assert(name.skip(k + 1) == ext);
    }
}

} // verus!
