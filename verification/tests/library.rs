use virt_lint::error::VirtLintError;
use virt_lint::numbers::{parse_i32, parse_int, parse_u64};
use virt_lint::order::sort_strings;
use virt_lint::paths::{get_tags_for_path, is_validator_file, stem};
use virt_lint::registry::{BuiltinCheck, Validators};
use virt_lint::scripts::{merge_paths, script_tags, select_scripts};
use virt_lint::warning::{add_script_warning, warning_constant, VirtLint, WarningDomain, WarningLevel};

fn comps(p: &str) -> Vec<String> {
    p.split('/').filter(|c| !c.is_empty()).map(|c| c.to_string()).collect()
}

fn strs(t: &[&str]) -> Vec<String> {
    t.iter().map(|s| s.to_string()).collect()
}

#[test]
fn numbers() {
    assert_eq!(parse_u64("8388608"), Some(8388608));
    assert_eq!(parse_u64("+12"), Some(12));
    assert_eq!(parse_u64("12a"), None);
    assert_eq!(parse_u64(""), None);
    assert_eq!(parse_u64("+"), None);
    assert_eq!(parse_u64("-1"), None);
    assert_eq!(parse_u64("18446744073709551615"), Some(u64::MAX));
    assert_eq!(parse_u64("18446744073709551616"), None);
    assert_eq!(parse_i32("-2147483648"), Some(i32::MIN));
    assert_eq!(parse_i32("2147483648"), None);
    assert_eq!(parse_i32("-0"), Some(0));
    assert_eq!(parse_int("0x1f"), Some(31));
    assert_eq!(parse_int("0xFF"), Some(255));
    assert_eq!(parse_int("0x"), None);
    assert_eq!(parse_int("10"), Some(10));
    assert_eq!(parse_int("0x+1"), Some(1));
    assert_eq!(parse_int("ff"), None);
}

#[test]
fn warning_numbers() {
    for d in [WarningDomain::Domain, WarningDomain::Node] {
        assert_eq!(WarningDomain::try_from_i32(d.to_i32()).unwrap(), d);
    }
    for l in [WarningLevel::Error, WarningLevel::Warning, WarningLevel::Notice] {
        assert_eq!(WarningLevel::try_from_i32(l.to_i32()).unwrap(), l);
    }
    assert!(matches!(WarningDomain::try_from_i32(2), Err(VirtLintError::InvalidArgument(_))));
    assert!(matches!(WarningLevel::try_from_i32(-1), Err(VirtLintError::InvalidArgument(_))));
    assert_eq!(warning_constant("WarningDomain_Node"), Some(1));
    assert_eq!(warning_constant("WarningLevel_Notice"), Some(2));
    assert_eq!(warning_constant("WarningLevel_Error"), Some(0));
    assert_eq!(warning_constant("nope"), None);
}

#[test]
fn script_warnings() {
    let mut vl = VirtLint::new();
    add_script_warning(&mut vl, strs(&["common/check_numa", "common"]), 0, 0, "m".to_string()).unwrap();
    assert_eq!(vl.warnings()[0].tags, strs(&["common", "common/check_numa"]));
    assert_eq!(vl.warnings()[0].domain, WarningDomain::Domain);
    assert_eq!(vl.warnings()[0].level, WarningLevel::Error);
    let r = add_script_warning(&mut vl, strs(&["x"]), 0, 7, "m".to_string());
    assert!(matches!(r, Err(VirtLintError::InvalidArgument(ref m)) if m == "invalid warning level"));
    // Both numbers wrong: the domain is reported.
    let r = add_script_warning(&mut vl, strs(&["x"]), 5, 7, "m".to_string());
    assert!(matches!(r, Err(VirtLintError::InvalidArgument(ref m)) if m == "invalid warning domain"));
    assert_eq!(vl.warnings().len(), 1);
}

#[test]
fn script_constants_round_trip() {
    let domains = [("WarningDomain_Domain", WarningDomain::Domain), ("WarningDomain_Node", WarningDomain::Node)];
    let levels = [
        ("WarningLevel_Error", WarningLevel::Error),
        ("WarningLevel_Warning", WarningLevel::Warning),
        ("WarningLevel_Notice", WarningLevel::Notice),
    ];
    let mut vl = VirtLint::new();
    let mut n = 0;
    for (dn, d) in domains {
        for (ln, l) in levels {
            let di = warning_constant(dn).unwrap();
            let li = warning_constant(ln).unwrap();
            add_script_warning(&mut vl, strs(&["b", "a"]), di, li, format!("{dn} {ln}")).unwrap();
            n += 1;
            assert_eq!(vl.warnings().len(), n);
            let w = &vl.warnings()[n - 1];
            assert_eq!((w.domain, w.level), (d, l));
            assert_eq!(w.tags, strs(&["a", "b"]));
            assert_eq!(w.msg, format!("{dn} {ln}"));
        }
    }
}

#[test]
fn sorting() {
    assert_eq!(sort_strings(strs(&["b", "a", "ab", "", "a"])), strs(&["", "a", "a", "ab", "b"]));
    assert_eq!(sort_strings(strs(&["é", "z"])), strs(&["z", "é"]));
}

#[test]
fn tags_from_readme_example() {
    let prefix = comps("/usr/share/virt-lint/validators");
    let path = comps("/usr/share/virt-lint/validators/a/b/check_something.lua");
    assert_eq!(get_tags_for_path(&prefix, &path), strs(&["a/b/check_something", "a/b", "a"]));
    assert_eq!(get_tags_for_path(&prefix, &comps("/etc/check_x.lua")), Vec::<String>::new());
    assert_eq!(get_tags_for_path(&prefix, &prefix), Vec::<String>::new());
    // Only the script's own extension goes; a dotted directory keeps its name.
    assert_eq!(
        get_tags_for_path(&comps("/v"), &comps("/v/x.d/check_a.py")),
        strs(&["x.d/check_a", "x.d"])
    );
}

#[test]
fn stems_and_validator_files() {
    assert_eq!(stem(&"a.tar.gz".to_string()), "a.tar");
    assert_eq!(stem(&".bashrc".to_string()), ".bashrc");
    assert_eq!(stem(&"..".to_string()), "..");
    assert_eq!(stem(&"noext".to_string()), "noext");
    assert!(is_validator_file("check_numa.py", "check_", "py"));
    assert!(!is_validator_file("check_numa.lua", "check_", "py"));
    assert!(!is_validator_file("helper.py", "check_", "py"));
    assert!(!is_validator_file("check_", "check_", "py"));
    assert!(is_validator_file("check_.py", "check_", "py"));
}

#[test]
fn override_directory_wins() {
    let prefixes = vec![comps("/over"), comps("/stock")];
    let files = vec![
        vec![comps("/over/common_p/check_numa_free.py")],
        vec![comps("/stock/common_p/check_numa.py"), comps("/stock/common_p/check_numa_free.py")],
    ];
    assert_eq!(select_scripts(&prefixes, &files), vec![(0, 0), (1, 0)]);
    let mut t = script_tags(&prefixes, &files);
    t.sort();
    assert_eq!(t, strs(&["common_p", "common_p/check_numa", "common_p/check_numa_free"]));
}

#[test]
fn selection_and_tags() {
    let v = Validators::builtin();
    assert_eq!(v.len(), 4);
    assert_eq!(v.get_validators(&vec![]), vec![0, 1, 2, 3]);
    assert_eq!(v.get_validators(&strs(&["TAG_2"])), vec![0, 1]);
    assert_eq!(v.get_validators(&strs(&["TAG_3", "TAG_4"])), vec![2, 3]);
    assert_eq!(v.get_validators(&strs(&["common"])), Vec::<usize>::new());
    assert_eq!(v.get(3).check(), BuiltinCheck::PcieRootPorts);
    let scripts = strs(&["common", "common/check_numa"]);
    assert!(v.validate_tags(&strs(&["TAG_1", "common"]), &scripts).is_ok());
    match v.validate_tags(&strs(&["TAG_1", "TAG_9", "nope"]), &scripts) {
        Err(VirtLintError::UnknownValidatorTag(t)) => assert_eq!(t, "TAG_9"),
        _ => panic!("expected an unknown tag"),
    }
}

#[test]
fn merged_paths_sorted_once() {
    let found = vec![
        vec![comps("/v/b/check_x.py"), comps("/v/a/check_y.py")],
        vec![comps("/v/a/check_y.py"), comps("/v/a.b/check_z.py"), comps("/v/a/b/check_w.py")],
        vec![],
    ];
    assert_eq!(
        merge_paths(&found),
        vec![
            comps("/v/a/b/check_w.py"),
            comps("/v/a/check_y.py"),
            comps("/v/a.b/check_z.py"),
            comps("/v/b/check_x.py"),
        ]
    );
    assert_eq!(merge_paths(&vec![]), Vec::<Vec<String>>::new());
}
