use virt_lint::registry::Validators;
use virt_lint::scripts::script_tags;
use virt_lint::warning::VirtLint;

fn comps(p: &str) -> Vec<String> {
    p.split('/').filter(|c| !c.is_empty()).map(|c| c.to_string()).collect()
}

#[test]
fn test_empty() {
    let vl = VirtLint::new();
    assert!(vl.warnings().is_empty());
}

#[test]
fn test_list_tags() {
    let v = Validators::builtin();
    let checks = ["check_node_kvm", "check_numa", "check_numa_free", "check_pcie_root_ports"];
    let prefixes = vec![comps("/validators")];
    let lua: Vec<Vec<String>> = checks
        .iter()
        .map(|c| comps(&format!("/validators/common/{}.lua", c)))
        .collect();
    let py: Vec<Vec<String>> = checks
        .iter()
        .map(|c| comps(&format!("/validators/common_p/{}.py", c)))
        .collect();
    let mut scripts = script_tags(&prefixes, &vec![lua]);
    scripts.extend(script_tags(&prefixes, &vec![py]));
    let mut tags = v.list_tags(&scripts);
    tags.sort();
    assert_eq!(
        tags,
        [
            "TAG_1",
            "TAG_2",
            "TAG_3",
            "TAG_4",
            "common",
            "common/check_node_kvm",
            "common/check_numa",
            "common/check_numa_free",
            "common/check_pcie_root_ports",
            "common_p",
            "common_p/check_node_kvm",
            "common_p/check_numa",
            "common_p/check_numa_free",
            "common_p/check_pcie_root_ports",
        ]
    );
}
