use virt_lint::checks::{
    build_guest_arch_xpath, check_node_kvm, check_numa, check_numa_free, check_pcie_root_ports,
    free_ports, numa_cell_ids, try_check_numa, try_check_pcie_root_ports, try_numa_cell_ids,
};
use virt_lint::error::VirtLintError;
use virt_lint::warning::{VirtLint, VirtLintWarning, WarningDomain, WarningLevel};
use virt_lint::xml::{parse_xml, query_xml, try_query_xml, xpath_eval_nodeset_or_none, xpath_eval_or_none};

fn tags(t: &[&str]) -> Vec<String> {
    t.iter().map(|s| s.to_string()).collect()
}

const CAPS: &str = "<capabilities><host><topology><cells num='2'>\
<cell id='0'><memory unit='KiB'>2097152</memory></cell>\
<cell id='1'><memory unit='KiB'>4194304</memory></cell>\
</cells></topology></host>\
<guest><os_type>hvm</os_type><arch name='x86_64'><emulator>/usr/bin/qemu</emulator>\
<machine>pc</machine></arch></guest></capabilities>";

fn domain(mem: &str) -> String {
    format!("<domain type='test'><name>test</name><memory>{}</memory></domain>", mem)
}

#[test]
fn numa_warns_when_no_cell_is_big_enough() {
    let dom = parse_xml(&domain("8388608")).unwrap();
    let mut vl = VirtLint::new();
    check_numa(&mut vl, Some(CAPS), &dom, &tags(&["TAG_2", "TAG_1"])).unwrap();
    assert_eq!(
        vl.warnings(),
        &vec![VirtLintWarning::new(
            tags(&["TAG_1", "TAG_2"]),
            WarningDomain::Domain,
            WarningLevel::Error,
            String::from("Domain would not fit into any host NUMA node"),
        )]
    );
    assert_eq!(vl.warnings()[0].tags, tags(&["TAG_1", "TAG_2"]));
}

#[test]
fn numa_quiet_when_a_cell_is_bigger() {
    let dom = parse_xml(&domain("4194303")).unwrap();
    let mut vl = VirtLint::new();
    check_numa(&mut vl, Some(CAPS), &dom, &tags(&["TAG_1"])).unwrap();
    assert!(vl.warnings().is_empty());
    // A cell exactly as large as the domain is not enough.
    let dom = parse_xml(&domain("4194304")).unwrap();
    check_numa(&mut vl, Some(CAPS), &dom, &tags(&["TAG_1"])).unwrap();
    assert_eq!(vl.warnings().len(), 1);
}

#[test]
fn numa_without_capabilities_or_memory() {
    let dom = parse_xml(&domain("8388608")).unwrap();
    let mut vl = VirtLint::new();
    check_numa(&mut vl, None, &dom, &tags(&["TAG_1"])).unwrap();
    assert!(vl.warnings().is_empty());
    // No memory element: the domain asks for 0 and fits.
    let dom = parse_xml("<domain type='kvm'/>").unwrap();
    check_numa(&mut vl, Some(CAPS), &dom, &tags(&["TAG_1"])).unwrap();
    assert!(vl.warnings().is_empty());
}

#[test]
fn numa_errors() {
    let mut vl = VirtLint::new();
    let dom = parse_xml(&domain("lots")).unwrap();
    let r = check_numa(&mut vl, Some(CAPS), &dom, &tags(&["TAG_1"]));
    assert!(matches!(r, Err(VirtLintError::ParseInt(ref t)) if t == "lots"));
    let r = check_numa(&mut vl, Some(""), &dom, &tags(&["TAG_1"]));
    assert!(matches!(r, Err(VirtLintError::XmlParse)));
    assert!(vl.warnings().is_empty());
}

#[test]
fn numa_hex_domain_memory() {
    let dom = parse_xml(&domain("0x10")).unwrap();
    let mut vl = VirtLint::new();
    check_numa(&mut vl, Some(CAPS), &dom, &tags(&["TAG_1"])).unwrap();
    assert!(vl.warnings().is_empty());
}

#[test]
fn numa_unreadable_cell_memory() {
    let caps = "<capabilities><host><topology><cells><cell id='0'><memory>big</memory></cell></cells></topology></host></capabilities>";
    let dom = parse_xml(&domain("1")).unwrap();
    let mut vl = VirtLint::new();
    assert!(try_check_numa(&mut vl, Some(caps), &dom, &tags(&["TAG_1"])).is_none());
    assert!(try_check_numa(&mut vl, Some(CAPS), &dom, &tags(&["TAG_1"])).is_some());
}

#[test]
fn numa_free_cells() {
    assert_eq!(numa_cell_ids(CAPS).unwrap(), vec![0, 1]);
    assert!(matches!(numa_cell_ids(""), Err(VirtLintError::XmlParse)));
    let bad = "<capabilities><host><topology><cells><cell id='x'/></cells></topology></host></capabilities>";
    assert!(try_numa_cell_ids(bad).is_none());
    let dom = parse_xml(&domain("150")).unwrap();
    let mut vl = VirtLint::new();
    check_numa_free(&mut vl, Some(&vec![100, 200]), &dom, &tags(&["TAG_2"])).unwrap();
    assert!(vl.warnings().is_empty());
    // Unknown free memory: nothing is checked.
    check_numa_free(&mut vl, None, &dom, &tags(&["TAG_2"])).unwrap();
    assert!(vl.warnings().is_empty());
    check_numa_free(&mut vl, Some(&vec![100, 150]), &dom, &tags(&["TAG_2"])).unwrap();
    assert_eq!(
        vl.warnings(),
        &vec![VirtLintWarning::new(
            tags(&["TAG_2"]),
            WarningDomain::Domain,
            WarningLevel::Error,
            String::from("Not enough free memory on any NUMA node"),
        )]
    );
}

fn q35(devices: &str) -> String {
    format!(
        "<domain type='kvm'><os><type arch='x86_64' machine='pc-q35-8.0'>hvm</type></os><devices>{}</devices></domain>",
        devices
    )
}

const PORTS: &str = "<controller type='pci' model='pcie-root-port'><target chassis='1' port='0x10'/></controller>\
<controller type='pci' model='pcie-root-port'><target chassis='2' port='0x11'/></controller>";

#[test]
fn pcie_free_port_left() {
    let xml = q35(&format!(
        "{}<interface type='network'><address type='pci' domain='0x0000' bus='0x01' slot='0x00' function='0x0'/></interface>",
        PORTS
    ));
    let dom = parse_xml(&xml).unwrap();
    let mut vl = VirtLint::new();
    check_pcie_root_ports(&mut vl, &dom, &tags(&["TAG_4"])).unwrap();
    assert!(vl.warnings().is_empty());
}

#[test]
fn pcie_all_ports_taken() {
    let xml = q35(&format!(
        "{}<disk><address type='pci' bus='0x01'/></disk><disk><address type='pci' bus='0x02'/></disk>",
        PORTS
    ));
    let dom = parse_xml(&xml).unwrap();
    let mut vl = VirtLint::new();
    check_pcie_root_ports(&mut vl, &dom, &tags(&["TAG_4"])).unwrap();
    assert_eq!(
        vl.warnings(),
        &vec![VirtLintWarning::new(
            tags(&["TAG_4"]),
            WarningDomain::Domain,
            WarningLevel::Notice,
            String::from("No free PCIe root ports found, hotplug might be not possible"),
        )]
    );
}

#[test]
fn pcie_no_ports_at_all() {
    let dom = parse_xml(&q35("")).unwrap();
    let mut vl = VirtLint::new();
    check_pcie_root_ports(&mut vl, &dom, &tags(&["TAG_4"])).unwrap();
    assert_eq!(vl.warnings().len(), 1);
}

#[test]
fn pcie_not_applicable() {
    let mut vl = VirtLint::new();
    let pc = "<domain type='kvm'><os><type machine='pc-i440fx'>hvm</type></os><devices/></domain>";
    check_pcie_root_ports(&mut vl, &parse_xml(pc).unwrap(), &tags(&["TAG_4"])).unwrap();
    let xen = "<domain type='xen'><os><type machine='q35'>hvm</type></os><devices/></domain>";
    check_pcie_root_ports(&mut vl, &parse_xml(xen).unwrap(), &tags(&["TAG_4"])).unwrap();
    assert!(vl.warnings().is_empty());
}

#[test]
fn pcie_bad_bus_and_bad_chassis() {
    let mut vl = VirtLint::new();
    let xml = q35(&format!("{}<disk><address type='pci' bus='zz'/></disk>", PORTS));
    let r = check_pcie_root_ports(&mut vl, &parse_xml(&xml).unwrap(), &tags(&["TAG_4"]));
    assert!(matches!(r, Err(VirtLintError::ParseInt(ref t)) if t == "zz"));
    let bad = q35("<controller type='pci'><target chassis='0x1'/></controller>");
    assert!(try_check_pcie_root_ports(&mut vl, &parse_xml(&bad).unwrap(), &tags(&["TAG_4"])).is_none());
    assert!(vl.warnings().is_empty());
}

#[test]
fn free_ports_keeps_order() {
    assert_eq!(free_ports(&vec![3, 1, 2, 1], &vec![1]), vec![3, 2]);
    assert_eq!(free_ports(&vec![1, 2], &vec![2, 1]), Vec::<u64>::new());
}

#[test]
fn guest_arch_query() {
    let s = |x: &str| Some(x.to_string());
    assert_eq!(
        build_guest_arch_xpath(&s("/usr/bin/qemu"), &s("x86_64"), &s("pc"), &s("kvm")),
        "//capabilities/guest/arch[@name='x86_64' and emulator/text()='/usr/bin/qemu' and machine/text()='pc' and domain/@type='kvm']"
    );
    assert_eq!(build_guest_arch_xpath(&None, &None, &None, &None), "//capabilities/guest/arch");
    assert_eq!(
        build_guest_arch_xpath(&None, &None, &s("q35"), &None),
        "//capabilities/guest/arch[machine/text()='q35']"
    );
}

#[test]
fn node_kvm() {
    let mut vl = VirtLint::new();
    check_node_kvm(&mut vl, false, None, &tags(&["TAG_3", "TAG_1"])).unwrap();
    assert!(vl.warnings().is_empty());
    // The capabilities list a guest architecture: no warning.
    check_node_kvm(&mut vl, true, Some(CAPS), &tags(&["TAG_3", "TAG_1"])).unwrap();
    assert!(vl.warnings().is_empty());
    check_node_kvm(&mut vl, true, None, &tags(&["TAG_3", "TAG_1"])).unwrap();
    assert_eq!(
        vl.warnings(),
        &vec![VirtLintWarning::new(
            tags(&["TAG_1", "TAG_3"]),
            WarningDomain::Node,
            WarningLevel::Warning,
            String::from("No suitable emulator found"),
        )]
    );
    let none = "<capabilities><host/></capabilities>";
    check_node_kvm(&mut vl, true, Some(none), &tags(&["TAG_1"])).unwrap();
    assert_eq!(vl.warnings().len(), 2);
    assert!(matches!(check_node_kvm(&mut vl, true, Some(""), &tags(&["TAG_1"])), Err(VirtLintError::XmlParse)));
}

#[test]
fn xpath_queries() {
    let dom = parse_xml(&domain("12")).unwrap();
    assert_eq!(xpath_eval_or_none(&dom, "//domain/memory"), Some("12".to_string()));
    assert_eq!(xpath_eval_or_none(&dom, "//domain/vcpu"), None);
    assert_eq!(query_xml(Some(CAPS), "//cell/@id"), Some(tags(&["0", "1"])));
    assert_eq!(query_xml(None, "//cell/@id"), None);
    // An expression that does not evaluate, one that selects nothing, and a
    // document that does not parse all give `None`.
    assert_eq!(query_xml(Some(CAPS), "//cell["), None);
    assert_eq!(query_xml(Some(CAPS), "//cell/@missing"), None);
    assert_eq!(query_xml(Some(""), "//cell"), None);
    assert_eq!(xpath_eval_nodeset_or_none(&dom, "//domain/vcpu"), None);
    assert_eq!(xpath_eval_nodeset_or_none(&dom, "//domain/memory"), Some(tags(&["12"])));
}

#[test]
fn dom_xpath_example() {
    let xml = "<domain><devices><emulator>/usr/bin/qemu-system-x86_64</emulator></devices></domain>";
    assert_eq!(
        query_xml(Some(xml), "/domain/devices/emulator/text()"),
        Some(vec!["/usr/bin/qemu-system-x86_64".to_string()])
    );
    assert_eq!(query_xml(Some(xml), "/domain/devices/disk"), None);
}

#[test]
fn pcie_more_buses_keep_warning() {
    let taken = "<disk><address type='pci' bus='0x01'/></disk><disk><address type='pci' bus='0x02'/></disk>";
    let one = q35(&format!("{}{}", PORTS, taken));
    let two = q35(&format!("{}{}<disk><address type='pci' bus='0x05'/></disk>", PORTS, taken));
    let mut vl1 = VirtLint::new();
    let mut vl2 = VirtLint::new();
    check_pcie_root_ports(&mut vl1, &parse_xml(&one).unwrap(), &tags(&["TAG_4"])).unwrap();
    check_pcie_root_ports(&mut vl2, &parse_xml(&two).unwrap(), &tags(&["TAG_4"])).unwrap();
    assert_eq!(vl1.warnings().len(), 1);
    assert_eq!(vl1.warnings(), vl2.warnings());
}

#[test]
fn query_with_nul() {
    // A NUL in the expression matters only where the document parses.
    assert_eq!(try_query_xml(Some(CAPS), "//cell\0"), None);
    assert_eq!(try_query_xml(Some(""), "//cell\0"), Some(None));
    assert_eq!(try_query_xml(None, "//cell\0"), Some(None));
    assert_eq!(query_xml(Some(""), "//cell\0"), None);
    assert_eq!(try_query_xml(Some(CAPS), "//cell/@id"), Some(Some(tags(&["0", "1"]))));
}
