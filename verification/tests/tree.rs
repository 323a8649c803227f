use fdt::nodes::cpus::CpuEnableMethod;
use fdt::properties::cells::CellSizes;
use fdt::properties::{Compatible, PHandle, Status};
use fdt::{Fdt, FdtError};

/// Writes a flattened devicetree: header, empty reservation map, structure
/// block and strings block.
struct Blob {
    structs: Vec<u8>,
    strings: Vec<u8>,
}

impl Blob {
    fn new() -> Self {
        Blob { structs: Vec::new(), strings: Vec::new() }
    }

    fn word(&mut self, v: u32) {
        self.structs.extend_from_slice(&v.to_be_bytes());
    }

    fn pad(&mut self) {
        while self.structs.len() % 4 != 0 {
            self.structs.push(0);
        }
    }

    fn begin(&mut self, name: &str) {
        self.word(1);
        self.structs.extend_from_slice(name.as_bytes());
        self.structs.push(0);
        self.pad();
    }

    fn end(&mut self) {
        self.word(2);
    }

    fn name_offset(&mut self, name: &str) -> u32 {
        let mut start = 0;
        while start < self.strings.len() {
            let end = start + self.strings[start..].iter().position(|b| *b == 0).unwrap();
            if &self.strings[start..end] == name.as_bytes() {
                return start as u32;
            }
            start = end + 1;
        }
        let off = self.strings.len() as u32;
        self.strings.extend_from_slice(name.as_bytes());
        self.strings.push(0);
        off
    }

    fn prop(&mut self, name: &str, value: &[u8]) {
        let off = self.name_offset(name);
        self.word(3);
        self.word(value.len() as u32);
        self.word(off);
        self.structs.extend_from_slice(value);
        self.pad();
    }

    fn finish(mut self) -> Vec<u8> {
        self.word(9);
        let structs_offset = 40 + 16;
        let strings_offset = structs_offset + self.structs.len();
        let total = strings_offset + self.strings.len();
        let mut out = Vec::new();
        for v in [
            0xd00dfeedu32,
            total as u32,
            structs_offset as u32,
            strings_offset as u32,
            40,
            17,
            16,
            0,
            self.strings.len() as u32,
            self.structs.len() as u32,
        ] {
            out.extend_from_slice(&v.to_be_bytes());
        }
        out.extend_from_slice(&[0u8; 16]);
        out.extend_from_slice(&self.structs);
        out.extend_from_slice(&self.strings);
        out
    }
}

fn cells(v: &[u32]) -> Vec<u8> {
    v.iter().flat_map(|c| c.to_be_bytes()).collect()
}

fn text(s: &str) -> Vec<u8> {
    let mut v = s.as_bytes().to_vec();
    v.push(0);
    v
}

/// A devicetree in the shape of a small RISC-V machine.
fn machine() -> Vec<u8> {
    let mut b = Blob::new();
    b.begin("");
    b.prop("#address-cells", &cells(&[2]));
    b.prop("#size-cells", &cells(&[2]));
    b.prop("compatible", &text("riscv-virtio"));
    b.prop("model", &text("riscv-virtio,qemu"));
    b.prop("serial-number", &text("SN-42"));

    b.begin("chosen");
    b.prop("bootargs", &text("console=ttyS0"));
    b.prop("stdout-path", &text("/soc/uart@10000000:115200"));
    b.prop("stdin-path", &text("serial0"));
    b.end();

    b.begin("aliases");
    b.prop("serial0", &text("/soc/uart@10000000"));
    b.end();

    b.begin("cpus");
    b.prop("#address-cells", &cells(&[1]));
    b.prop("#size-cells", &cells(&[0]));
    b.prop("timebase-frequency", &cells(&[10_000_000]));
    b.prop("clock-frequency", &cells(&[1_000_000]));
    b.begin("cpu@0");
    b.prop("device_type", &text("cpu"));
    b.prop("reg", &cells(&[0]));
    b.prop("status", &text("okay"));
    b.prop("compatible", &text("riscv"));
    b.prop("mmu-type", &text("riscv,sv48"));
    b.prop("clock-frequency", &cells(&[0, 3_000_000_000]));
    b.prop("enable-method", b"spin-table\0psci\0fsl,MPC8572DS\0");
    b.prop("tlb-split", &[]);
    b.prop("d-tlb-size", &cells(&[64]));
    b.prop("phandle", &cells(&[1]));
    b.end();
    b.begin("cpu@1");
    b.prop("device_type", &text("cpu"));
    b.prop("reg", &cells(&[1]));
    b.prop("status", &text("disabled"));
    b.prop("phandle", &cells(&[2]));
    b.end();
    b.begin("cpu-map");
    b.begin("cluster0");
    b.begin("core0");
    b.prop("cpu", &cells(&[1]));
    b.end();
    b.begin("core1");
    b.begin("thread0");
    b.prop("cpu", &cells(&[2]));
    b.end();
    b.end();
    b.end();
    b.begin("socket12");
    b.end();
    b.end();
    b.end();

    b.begin("memory@80000000");
    b.prop("device_type", &text("memory"));
    b.prop("reg", &cells(&[0, 0x8000_0000, 0, 0x0800_0000]));
    b.prop("hotpluggable", &[]);
    b.end();

    b.begin("reserved-memory");
    b.prop("#address-cells", &cells(&[2]));
    b.prop("#size-cells", &cells(&[2]));
    b.prop("ranges", &[]);
    b.begin("region@90000000");
    b.prop("reg", &cells(&[0, 0x9000_0000, 0, 0x1000]));
    b.prop("compatible", &text("shared-dma-pool"));
    b.prop("size", &cells(&[0, 0x1000]));
    b.prop("alignment", &cells(&[0, 0x100]));
    b.prop("no-map", &[]);
    b.prop("reusable", &[]);
    b.prop("linux,cma-default", &[]);
    b.end();
    b.end();

    b.begin("soc");
    b.prop("#address-cells", &cells(&[2]));
    b.prop("#size-cells", &cells(&[2]));
    b.prop("compatible", &text("simple-bus"));
    b.prop("ranges", &[]);
    b.begin("uart@10000000");
    b.prop("reg", &cells(&[0, 0x1000_0000, 0, 0x100]));
    b.prop("compatible", &text("ns16550a"));
    b.end();
    b.begin("test@100000");
    b.prop("phandle", &cells(&[3]));
    b.prop("reg", &cells(&[0, 0x10_0000, 0, 0x1000]));
    b.prop("compatible", b"sifive,test1\0sifive,test0\0syscon\0");
    b.prop("status", &text("fail-sss"));
    b.end();
    b.end();

    b.end();
    b.finish()
}

#[test]
fn header_fields_are_read() {
    let blob = machine();
    let fdt = Fdt::new_unaligned(&blob).unwrap();
    assert_eq!(fdt.header().magic, 0xd00dfeed);
    assert_eq!(fdt.total_size(), blob.len());
    assert_eq!(fdt.header().version, 17);
    assert_eq!(fdt.structs_block().len(), fdt.header().structs_size as usize);
    assert_eq!(fdt.strings_block().len(), fdt.header().strings_size as usize);
}

#[test]
fn bad_magic_is_refused() {
    let mut blob = machine();
    blob[0] = 0xd1;
    assert!(matches!(Fdt::new_unaligned(&blob), Err(FdtError::BadMagic)));
}

#[test]
fn short_slice_is_refused() {
    let blob = machine();
    assert!(matches!(Fdt::new_unaligned(&blob[..blob.len() - 1]), Err(FdtError::SliceTooSmall)));
}

#[test]
fn header_past_the_end_of_a_u32_is_refused_as_a_value() {
    let mut blob = machine();
    blob[12..16].copy_from_slice(&0xffff_ffffu32.to_be_bytes());
    blob[32..36].copy_from_slice(&1u32.to_be_bytes());
    assert!(matches!(Fdt::new_unaligned_fallible(&blob), Err(FdtError::SliceTooSmall)));
    while blob.len() % 4 != 0 {
        blob.push(0);
    }
    let words: Vec<u32> = blob.chunks(4).map(|c| u32::from_ne_bytes([c[0], c[1], c[2], c[3]])).collect();
    assert!(matches!(Fdt::new_fallible(&words), Err(FdtError::SliceTooSmall)));
}

#[test]
fn aligned_buffer_shorter_than_total_size_is_refused() {
    let mut blob = machine();
    while blob.len() % 4 != 0 {
        blob.push(0);
    }
    let total = blob.len() as u32 + 8;
    blob[4..8].copy_from_slice(&total.to_be_bytes());
    let words: Vec<u32> = blob.chunks(4).map(|c| u32::from_ne_bytes([c[0], c[1], c[2], c[3]])).collect();
    assert!(matches!(Fdt::new(&words), Err(FdtError::SliceTooSmall)));
    blob[4..8].copy_from_slice(&(total - 6).to_be_bytes());
    let words: Vec<u32> = blob.chunks(4).map(|c| u32::from_ne_bytes([c[0], c[1], c[2], c[3]])).collect();
    assert!(matches!(Fdt::new(&words), Err(FdtError::SliceTooSmall)));

    // A strings block that ends one byte past the last word.
    blob[4..8].copy_from_slice(&(total - 8).to_be_bytes());
    let strings_offset = u32::from_be_bytes([blob[12], blob[13], blob[14], blob[15]]);
    let strings_size = blob.len() as u32 + 1 - strings_offset;
    blob[32..36].copy_from_slice(&strings_size.to_be_bytes());
    let words: Vec<u32> = blob.chunks(4).map(|c| u32::from_ne_bytes([c[0], c[1], c[2], c[3]])).collect();
    assert!(matches!(Fdt::new(&words), Err(FdtError::SliceTooSmall)));
    assert!(matches!(Fdt::new_unaligned(&blob), Err(FdtError::SliceTooSmall)));
}

#[test]
fn short_header_is_refused() {
    let blob = machine();
    assert!(matches!(
        Fdt::new_unaligned(&blob[..20]),
        Err(FdtError::ParseError(fdt::parsing::ParseError::UnexpectedEndOfData))
    ));
}

#[test]
fn aligned_buffer_reads_like_bytes() {
    let mut blob = machine();
    while blob.len() % 4 != 0 {
        blob.push(0);
    }
    let words: Vec<u32> = blob.chunks(4).map(|c| u32::from_ne_bytes([c[0], c[1], c[2], c[3]])).collect();
    let fdt = Fdt::new(&words).unwrap();
    let fdt2 = Fdt::new_fallible(&words).unwrap();
    assert_eq!(fdt.root().unwrap().model().unwrap(), "riscv-virtio,qemu");
    assert_eq!(fdt2.strings_block(), Fdt::new_unaligned_fallible(&blob).unwrap().strings_block());
}

#[test]
fn root_model_compatible_and_serial() {
    let blob = machine();
    let fdt = Fdt::new_unaligned(&blob).unwrap();
    let root = fdt.root().unwrap();
    assert_eq!(root.model().unwrap(), "riscv-virtio,qemu");
    assert_eq!(root.compatible().unwrap().first(), "riscv-virtio");
    assert_eq!(root.serial_number().unwrap(), Some("SN-42"));
    assert_eq!(root.chassis_type().unwrap(), None);
    assert_eq!(root.cell_sizes().unwrap(), CellSizes { address_cells: 2, size_cells: 2 });
}

#[test]
fn finds_root_node_by_path() {
    let blob = machine();
    let fdt = Fdt::new_unaligned(&blob).unwrap();
    let root = fdt.find_node("/").unwrap().expect("couldn't find root node");
    assert_eq!(root.name().unwrap().name, "/");
    assert!(root.parent().is_none());
}

#[test]
fn finds_nested_nodes_by_path() {
    let blob = machine();
    let fdt = Fdt::new_unaligned(&blob).unwrap();
    let uart = fdt.find_node("/soc/uart@10000000").unwrap().unwrap();
    assert_eq!(uart.name().unwrap().name, "uart");
    assert_eq!(uart.name().unwrap().unit_address, Some("10000000"));
    let uart2 = fdt.find_node("/soc/uart").unwrap().unwrap();
    assert_eq!(uart2.raw_body(), uart.raw_body());
    assert!(fdt.find_node("/soc/nothing").unwrap().is_none());
}

#[test]
fn path_components_name_direct_children() {
    let blob = machine();
    let fdt = Fdt::new_unaligned(&blob).unwrap();
    assert!(fdt.find_node("/cluster0").unwrap().is_none());
    assert!(fdt.find_node("/chosen/memory@80000000").unwrap().is_none());
    assert!(fdt.find_node("/cpus/cluster0").unwrap().is_none());
    let cluster = fdt.find_node("/cpus/cpu-map/cluster0").unwrap().unwrap();
    assert_eq!(cluster.name().unwrap().name, "cluster0");
    let parent = cluster.parent().unwrap();
    assert_eq!(parent.name().unwrap().name, "cpu-map");
    let thread = fdt.find_node("/cpus/cpu-map/cluster0/core1/thread0").unwrap().unwrap();
    assert_eq!(thread.name().unwrap().name, "thread0");
    let root = fdt.root().unwrap();
    assert!(root.find_node("/cluster0").unwrap().is_none());
    assert!(root.find_node("//cpus").unwrap().is_some());
}

#[test]
fn unit_address_filters_children() {
    let blob = machine();
    let fdt = Fdt::new_unaligned(&blob).unwrap();
    assert!(fdt.find_node("/memory@80000000").unwrap().is_some());
    assert!(fdt.find_node("/memory@80000001").unwrap().is_none());
}

#[test]
fn finds_nodes_by_name() {
    let blob = machine();
    let fdt = Fdt::new_unaligned(&blob).unwrap();
    let cpu = fdt.find_node_by_name("cpu").unwrap().unwrap();
    assert_eq!(cpu.name().unwrap().unit_address, Some("0"));
    let mut all = fdt.find_all_nodes_with_name("cpu").unwrap();
    let mut units = Vec::new();
    while let Some(n) = all.next() {
        units.push(n.unwrap().name().unwrap().unit_address.unwrap());
    }
    assert_eq!(units, vec!["0", "1"]);
}

#[test]
fn walks_all_nodes_depth_first() {
    let blob = machine();
    let fdt = Fdt::new_unaligned(&blob).unwrap();
    let mut it = fdt.all_nodes().unwrap();
    let mut seen = Vec::new();
    while let Some(n) = it.next() {
        let (depth, node) = n.unwrap();
        seen.push((depth, node.name().unwrap().name));
    }
    assert_eq!(
        seen,
        vec![
            (1, "chosen"),
            (1, "aliases"),
            (1, "cpus"),
            (2, "cpu"),
            (2, "cpu"),
            (2, "cpu-map"),
            (3, "cluster0"),
            (4, "core0"),
            (4, "core1"),
            (5, "thread0"),
            (3, "socket12"),
            (1, "memory"),
            (1, "reserved-memory"),
            (2, "region"),
            (1, "soc"),
            (2, "uart"),
            (2, "test"),
        ]
    );
}

#[test]
fn each_walked_node_hangs_below_its_nearest_enclosing_node() {
    let blob = machine();
    let fdt = Fdt::new_unaligned(&blob).unwrap();
    let root = fdt.root().unwrap();
    let mut it = fdt.all_nodes().unwrap();
    let mut path: Vec<Vec<u8>> = vec![root.as_node().raw_body().to_vec()];
    let mut last_depth = 0;
    while let Some(n) = it.next() {
        let (depth, node) = n.unwrap();
        assert!(depth <= last_depth + 1);
        path.truncate(depth);
        assert_eq!(node.parent().unwrap().raw_body(), &path[depth - 1][..]);
        path.push(node.raw_body().to_vec());
        last_depth = depth;
    }
}

#[test]
fn find_gives_the_first_matching_child() {
    let blob = machine();
    let fdt = Fdt::new_unaligned(&blob).unwrap();
    let cpus = fdt.find_node("/cpus").unwrap().unwrap();
    let first = cpus.children().unwrap().find("cpu").unwrap().unwrap();
    assert_eq!(first.name().unwrap().unit_address, Some("0"));
    let second = cpus.children().unwrap().find("cpu@1").unwrap().unwrap();
    assert_eq!(second.name().unwrap().unit_address, Some("1"));
    assert!(cpus.children().unwrap().find("cpu@2").unwrap().is_none());
}

#[test]
fn resolving_a_phandle_gives_the_first_node_that_has_it() {
    let mut b = Blob::new();
    b.begin("");
    b.begin("a");
    b.prop("phandle", &cells(&[7]));
    b.end();
    b.begin("b");
    b.prop("phandle", &cells(&[7]));
    b.end();
    b.end();
    let blob = b.finish();
    let fdt = Fdt::new_unaligned(&blob).unwrap();
    let node = fdt.root().unwrap().resolve_phandle(PHandle::new(7)).unwrap().unwrap();
    assert_eq!(node.name().unwrap().name, "a");
}

#[test]
fn node_names_display_as_written() {
    let blob = machine();
    let fdt = Fdt::new_unaligned(&blob).unwrap();
    let uart = fdt.find_node("/soc/uart").unwrap().unwrap();
    assert_eq!(uart.name().unwrap().display(), "uart@10000000");
    let chosen = fdt.find_node("/chosen").unwrap().unwrap();
    assert_eq!(chosen.name().unwrap().display(), "chosen");
    let root = fdt.find_node("/").unwrap().unwrap();
    assert_eq!(root.name().unwrap().display(), "/");
}

#[test]
fn children_and_properties_iterate_in_order() {
    let blob = machine();
    let fdt = Fdt::new_unaligned(&blob).unwrap();
    let soc = fdt.find_node("/soc").unwrap().unwrap();
    let children = soc.children().unwrap();
    let mut it = children.iter();
    let mut names = Vec::new();
    while let Some(c) = it.next() {
        names.push(c.unwrap().name().unwrap().name);
    }
    assert_eq!(names, vec!["uart", "test"]);
    let test = soc.child("test").unwrap().unwrap();
    let mut props = test.properties().unwrap().iter();
    let mut pnames = Vec::new();
    while let Some(p) = props.next() {
        pnames.push(p.unwrap().name);
    }
    assert_eq!(pnames, vec!["phandle", "reg", "compatible", "status"]);
    let compatible = test.raw_property("compatible").unwrap().unwrap();
    assert_eq!(compatible.value, b"sifive,test1\0sifive,test0\0syscon\0");
}

#[test]
fn cell_sizes_of_nodes() {
    let blob = machine();
    let fdt = Fdt::new_unaligned(&blob).unwrap();
    let cpus = fdt.find_node("/cpus").unwrap().unwrap();
    assert_eq!(cpus.property::<CellSizes>().unwrap(), Some(CellSizes { address_cells: 1, size_cells: 0 }));
    let uart = fdt.find_node("/soc/uart").unwrap().unwrap();
    assert_eq!(uart.property::<CellSizes>().unwrap(), None);
}

#[test]
fn compatible_lists_every_model() {
    let blob = machine();
    let fdt = Fdt::new_unaligned(&blob).unwrap();
    let test = fdt.find_node("/soc/test").unwrap().unwrap();
    let c = test.property::<Compatible>().unwrap().unwrap();
    assert_eq!(c.first(), "sifive,test1");
    let mut all = c.all();
    let mut models = Vec::new();
    while let Some(m) = all.next() {
        models.push(m);
    }
    assert_eq!(models, vec!["sifive,test1", "sifive,test0", "syscon"]);
    assert!(c.compatible_with("syscon"));
    assert!(!c.compatible_with("sifive"));
}

#[test]
fn status_of_a_failed_device() {
    let blob = machine();
    let fdt = Fdt::new_unaligned(&blob).unwrap();
    let test = fdt.find_node("/soc/test").unwrap().unwrap();
    let status = test.property::<Status>().unwrap().unwrap();
    assert!(status.is_failed());
    assert!(!status.is_okay());
    assert_eq!(status.failed_status_code(), Some("sss"));
    assert_eq!(Status::new("fail-fail-x").failed_status_code(), Some("fail-x"));
    assert_eq!(Status::new("fail").failed_status_code(), None);
    assert_eq!(Status::new("okay").failed_status_code(), None);
    assert!(Status::new("reserved").is_reserved());
}

#[test]
fn reg_of_a_device() {
    let blob = machine();
    let fdt = Fdt::new_unaligned(&blob).unwrap();
    let uart = fdt.find_node("/soc/uart").unwrap().unwrap();
    let reg = uart.reg().unwrap().unwrap();
    assert_eq!(reg.cell_sizes(), CellSizes { address_cells: 2, size_cells: 2 });
    let mut it = reg.iter::<u64, u64>();
    let e = it.next().unwrap().unwrap();
    assert_eq!((e.address, e.len), (0x1000_0000, 0x100));
    assert!(it.next().is_none());
}

#[test]
fn chosen_bootargs_and_stdout() {
    let blob = machine();
    let fdt = Fdt::new_unaligned(&blob).unwrap();
    let chosen = fdt.root().unwrap().chosen().unwrap();
    assert_eq!(chosen.bootargs().unwrap(), Some("console=ttyS0"));
    let path = chosen.stdout_path().unwrap().unwrap();
    assert_eq!(path.path(), "/soc/uart@10000000");
    assert_eq!(path.params(), Some("115200"));
    let stdout = chosen.stdout().unwrap().unwrap();
    assert_eq!(stdout.node.name().unwrap().name, "uart");
    assert_eq!(stdout.params, Some("115200"));
    let stdin = chosen.stdin().unwrap().unwrap();
    assert_eq!(stdin.node.name().unwrap().unit_address, Some("10000000"));
    assert_eq!(stdin.params, None);
}

#[test]
fn aliases_resolve_to_nodes() {
    let blob = machine();
    let fdt = Fdt::new_unaligned(&blob).unwrap();
    let aliases = fdt.root().unwrap().aliases().unwrap().unwrap();
    assert_eq!(aliases.resolve_name("serial0").unwrap(), Some("/soc/uart@10000000"));
    assert!(aliases.resolve_name("serial1").unwrap().is_none());
    let node = aliases.resolve("serial0").unwrap().unwrap();
    assert_eq!(node.name().unwrap().name, "uart");
    let mut it = aliases.iter().unwrap();
    let (name, path) = it.next().unwrap().unwrap();
    assert_eq!((name, path), ("serial0", "/soc/uart@10000000"));
    assert!(it.next().is_none());
}

#[test]
fn cpus_and_their_properties() {
    let blob = machine();
    let fdt = Fdt::new_unaligned(&blob).unwrap();
    let cpus = fdt.root().unwrap().cpus().unwrap();
    assert_eq!(cpus.cell_sizes().unwrap(), CellSizes { address_cells: 1, size_cells: 0 });
    assert_eq!(cpus.common_timebase_frequency().unwrap(), Some(10_000_000));
    assert_eq!(cpus.common_clock_frequency().unwrap(), Some(1_000_000));
    let mut it = cpus.iter().unwrap();
    let cpu0 = it.next().unwrap().unwrap();
    let cpu1 = it.next().unwrap().unwrap();
    assert!(it.next().is_none());

    assert_eq!(cpu0.reg::<u32>().unwrap().first().unwrap(), 0);
    assert_eq!(cpu1.reg::<u32>().unwrap().first().unwrap(), 1);
    assert_eq!(cpu0.clock_frequency().unwrap(), 3_000_000_000);
    assert_eq!(cpu1.clock_frequency().unwrap(), 1_000_000);
    assert_eq!(cpu0.timebase_frequency().unwrap(), 10_000_000);
    assert!(cpu0.status().unwrap().unwrap().is_okay());
    assert!(cpu1.status().unwrap().unwrap().is_disabled());
    assert_eq!(cpu0.mmu_type().unwrap(), Some("riscv,sv48"));
    assert_eq!(cpu1.mmu_type().unwrap(), None);
    assert!(cpu0.tlb_split().unwrap());
    assert!(!cpu1.tlb_split().unwrap());
    assert_eq!(cpu0.d_tlb_size().unwrap(), Some(64));
    assert_eq!(cpu0.tlb_size().unwrap(), None);
    assert!(cpu1.enable_method().unwrap().is_none());
}

#[test]
fn cpu_reg_shorter_than_one_id_is_refused() {
    let mut b = Blob::new();
    b.begin("");
    b.begin("cpus");
    b.prop("#address-cells", &cells(&[2]));
    b.prop("#size-cells", &cells(&[0]));
    b.begin("cpu@0");
    b.prop("reg", &cells(&[1]));
    b.end();
    b.begin("cpu@1");
    b.prop("reg", &cells(&[0, 7]));
    b.end();
    b.end();
    b.end();
    let blob = b.finish();
    let fdt = Fdt::new_unaligned(&blob).unwrap();
    let cpus = fdt.root().unwrap().cpus().unwrap();
    let mut it = cpus.iter().unwrap();
    let cpu0 = it.next().unwrap().unwrap();
    assert!(matches!(cpu0.reg::<u64>(), Err(FdtError::InvalidPropertyValue)));
    let cpu1 = it.next().unwrap().unwrap();
    assert_eq!(cpu1.reg::<u64>().unwrap().first().unwrap(), 7);
}

#[test]
fn cpu_enable_methods() {
    let blob = machine();
    let fdt = Fdt::new_unaligned(&blob).unwrap();
    let cpu0 = fdt.root().unwrap().cpus().unwrap().iter().unwrap().next().unwrap().unwrap();
    let methods = cpu0.enable_method().unwrap().unwrap();
    assert!(matches!(methods.first(), CpuEnableMethod::SpinTable));
    let mut it = methods.iter();
    assert!(matches!(it.next(), Some(CpuEnableMethod::SpinTable)));
    assert!(matches!(it.next(), Some(CpuEnableMethod::VendorMethod { vendor: "psci", method: "" })));
    assert!(matches!(it.next(), Some(CpuEnableMethod::VendorMethod { vendor: "fsl", method: "MPC8572DS" })));
    assert!(it.next().is_none());
}

#[test]
fn cpu_topology() {
    let blob = machine();
    let fdt = Fdt::new_unaligned(&blob).unwrap();
    let cpus = fdt.root().unwrap().cpus().unwrap();
    let topology = cpus.topology().unwrap().unwrap();

    let mut sockets = topology.sockets().unwrap();
    let socket = sockets.next().unwrap().unwrap();
    assert_eq!(socket.id().unwrap(), 12);
    assert!(sockets.next().is_none());

    let mut clusters = topology.clusters().unwrap();
    let cluster = clusters.next().unwrap().unwrap();
    assert_eq!(cluster.id().unwrap(), 0);
    assert!(clusters.next().is_none());

    let mut cores = cluster.cores().unwrap();
    let core0 = cores.next().unwrap().unwrap();
    let core1 = cores.next().unwrap().unwrap();
    assert!(cores.next().is_none());
    assert_eq!(core0.id().unwrap(), 0);
    assert_eq!(core1.id().unwrap(), 1);

    let cpu = core0.cpu().unwrap().unwrap();
    assert_eq!(cpu.reg::<u32>().unwrap().first().unwrap(), 0);
    assert!(core1.cpu().unwrap().is_none());

    let mut threads = core1.threads().unwrap();
    let thread = threads.next().unwrap().unwrap();
    assert_eq!(thread.id().unwrap(), 0);
    assert_eq!(thread.cpu().unwrap().reg::<u32>().unwrap().first().unwrap(), 1);
    assert!(threads.next().is_none());
    assert!(core0.threads().unwrap().next().is_none());
}

#[test]
fn memory_and_reserved_memory() {
    let blob = machine();
    let fdt = Fdt::new_unaligned(&blob).unwrap();
    let root = fdt.root().unwrap();
    let memory = root.memory().unwrap();
    let mut regions = memory.reg().unwrap().iter::<u64, u64>();
    let r = regions.next().unwrap().unwrap();
    assert_eq!((r.address, r.len), (0x8000_0000, 0x0800_0000));
    assert!(memory.hotpluggable().unwrap());
    assert_eq!(memory.initial_mapped_area().unwrap(), None);

    let reserved = root.reserved_memory().unwrap();
    assert_eq!(reserved.cell_sizes().unwrap(), CellSizes { address_cells: 2, size_cells: 2 });
    let mut children = reserved.children().unwrap();
    let region = children.next().unwrap().unwrap();
    assert!(children.next().is_none());
    assert_eq!(region.name().unwrap().unit_address, Some("90000000"));
    assert_eq!(region.size::<u64>().unwrap().unwrap().unwrap(), 0x1000);
    assert_eq!(region.alignment::<u64>().unwrap().unwrap().unwrap(), 0x100);
    assert!(region.no_map().unwrap());
    assert!(region.reusable().unwrap());
    assert!(region.cma_default().unwrap());
    assert!(!region.dma_default().unwrap());
    assert_eq!(region.compatible().unwrap().unwrap().first(), "shared-dma-pool");
    let mut reg = region.reg().unwrap().unwrap().iter::<u64, u64>();
    assert_eq!(reg.next().unwrap().unwrap().address, 0x9000_0000);
}

#[test]
fn phandles_resolve_to_nodes() {
    let blob = machine();
    let fdt = Fdt::new_unaligned(&blob).unwrap();
    let root = fdt.root().unwrap();
    let node = root.resolve_phandle(PHandle::new(3)).unwrap().unwrap();
    assert_eq!(node.name().unwrap().name, "test");
    assert_eq!(node.property::<PHandle>().unwrap().unwrap().as_u32(), 3);
    assert!(root.resolve_phandle(PHandle::new(99)).unwrap().is_none());
}

#[test]
fn finds_compatible_nodes() {
    let blob = machine();
    let fdt = Fdt::new_unaligned(&blob).unwrap();
    let with = ["syscon", "ns16550a"];
    let mut it = fdt.all_compatible(&with).unwrap();
    let mut names = Vec::new();
    while let Some(n) = it.next() {
        names.push(n.unwrap().name().unwrap().name);
    }
    assert_eq!(names, vec!["uart", "test"]);
}

#[test]
fn strings_block_lists_property_names() {
    let blob = machine();
    let fdt = Fdt::new_unaligned(&blob).unwrap();
    let strings = fdt.strings();
    assert_eq!(&strings[..5], &["#address-cells", "#size-cells", "compatible", "model", "serial-number"]);
    assert!(strings.contains(&"linux,cma-default"));
    let mut joined = Vec::new();
    for s in &strings {
        joined.extend_from_slice(s.as_bytes());
        joined.push(0);
    }
    assert_eq!(&fdt.strings_block()[..joined.len()], &joined[..]);
}

#[test]
fn invalid_utf8_node_name_is_an_error() {
    let mut b = Blob::new();
    b.begin("");
    b.begin("a");
    b.end();
    b.end();
    let mut blob = b.finish();
    // The child's name byte sits after the root's token, name and the child's token.
    let at = 56 + 4 + 4 + 4;
    blob[at] = 0xff;
    let fdt = Fdt::new_unaligned(&blob).unwrap();
    let mut it = fdt.all_nodes().unwrap();
    let (_, node) = it.next().unwrap().unwrap();
    assert!(matches!(
        node.name(),
        Err(FdtError::ParseError(fdt::parsing::ParseError::InvalidCStrValue))
    ));
}

#[test]
fn prints_the_tree_in_source_format() {
    let mut b = Blob::new();
    b.begin("");
    b.prop("#address-cells", &cells(&[1]));
    b.prop("model", &text("m"));
    b.begin("a");
    b.prop("x", &text("y"));
    b.end();
    b.begin("b");
    b.begin("c");
    b.end();
    b.end();
    b.end();
    let blob = b.finish();
    let fdt = Fdt::new_unaligned(&blob).unwrap();
    let expected = String::new()
        + "/ {\n"
        + "    #address-cells = <0x01>;\n"
        + "    model = \"m\";\n"
        + "\n"
        + "    a {\n"
        + "        x = \"y\";\n"
        + "    };\n"
        + "\n"
        + "    b {\n"
        + "        c {\n"
        + "\n"
        + "        };\n"
        + "\n"
        + "    };\n"
        + "};";
    let text = fdt.to_dts_string().unwrap();
    assert_eq!(text, expected);
    assert_eq!(text.matches('{').count(), text.matches('}').count());
}

#[test]
fn prints_reg_lists_and_escaped_strings() {
    let mut b = Blob::new();
    b.begin("");
    b.prop("#address-cells", &cells(&[1]));
    b.prop("#size-cells", &cells(&[1]));
    b.begin("m@1000");
    b.prop("reg", &cells(&[0x1000, 0x20]));
    b.prop("data", &[0xff, 0xfe, 0, 1, 0, 0, 0, 2]);
    b.prop("label", &text("a\"b"));
    b.prop("empty", &[]);
    b.end();
    b.end();
    let blob = b.finish();
    let fdt = Fdt::new_unaligned(&blob).unwrap();
    let expected = String::new()
        + "/ {\n"
        + "    #address-cells = <0x01>;\n"
        + "    #size-cells = <0x01>;\n"
        + "\n"
        + "    m@1000 {\n"
        + "        reg = <0x1000 0x20>;\n"
        + "        data = <0xfffe0001 0x02>;\n"
        + "        label = \"a\\\"b\";\n"
        + "        empty;\n"
        + "    };\n"
        + "};";
    assert_eq!(fdt.to_dts_string().unwrap(), expected);
}

#[test]
fn prints_a_root_without_children() {
    let mut b = Blob::new();
    b.begin("");
    b.prop("model", &text("m"));
    b.end();
    let blob = b.finish();
    let fdt = Fdt::new_unaligned(&blob).unwrap();
    assert_eq!(fdt.to_dts_string().unwrap(), "/ {\n    model = \"m\";\n};");

    let mut b = Blob::new();
    b.begin("");
    b.end();
    let blob = b.finish();
    let fdt = Fdt::new_unaligned(&blob).unwrap();
    assert_eq!(fdt.to_dts_string().unwrap(), "/ {\n};");
}

#[test]
fn printed_blocks_balance_for_every_shape() {
    let blob = machine();
    let fdt = Fdt::new_unaligned(&blob).unwrap();
    let printed = fdt.to_dts_string().unwrap();
    assert!(printed.starts_with("/ {"));
    assert!(printed.ends_with("};"));
    assert_eq!(printed.matches('{').count(), printed.matches('}').count());

    // Depths going down, back up several levels, then down again.
    let mut b = Blob::new();
    b.begin("");
    b.begin("a");
    b.begin("b");
    b.begin("c");
    b.end();
    b.end();
    b.end();
    b.begin("d");
    b.prop("x", &text("y"));
    b.end();
    b.begin("e");
    b.begin("f");
    b.end();
    b.end();
    b.end();
    let blob = b.finish();
    let fdt = Fdt::new_unaligned(&blob).unwrap();
    let printed = fdt.to_dts_string().unwrap();
    assert_eq!(printed.matches('{').count(), 7);
    assert_eq!(printed.matches('}').count(), 7);
}


#[test]
fn prints_a_deep_last_node_with_every_block_closed() {
    let mut b = Blob::new();
    b.begin("");
    b.begin("a");
    b.begin("b");
    b.begin("c");
    b.prop("x", &text("y"));
    b.end();
    b.end();
    b.end();
    b.end();
    let blob = b.finish();
    let fdt = Fdt::new_unaligned(&blob).unwrap();
    let s = fdt.to_dts_string().unwrap();
    let expected = String::new()
        + "/ {\n"
        + "    a {\n"
        + "        b {\n"
        + "            c {\n"
        + "                x = \"y\";\n"
        + "            };\n"
        + "        };\n"
        + "    };\n"
        + "};";
    assert_eq!(s, expected);
    assert_eq!(s.matches('{').count(), s.matches('}').count());
}

#[test]
fn error_messages() {
    assert_eq!(FdtError::BadMagic.message(), "bad FDT magic value");
    assert_eq!(
        FdtError::MissingPHandleNode(42).message(),
        "a node containing the `phandle` property value of `42` was not found"
    );
    assert_eq!(FdtError::MissingRequiredNode("/cpus").message(), "FDT is missing a required node `/cpus`");
    assert_eq!(
        FdtError::ParseError(fdt::parsing::ParseError::UnexpectedToken).message(),
        "encountered an unexpected FDT token value while parsing"
    );
}

#[test]
fn missing_required_node_is_reported() {
    let mut b = Blob::new();
    b.begin("");
    b.end();
    let blob = b.finish();
    let fdt = Fdt::new_unaligned(&blob).unwrap();
    let root = fdt.root().unwrap();
    assert!(matches!(root.cpus(), Err(FdtError::MissingRequiredNode("/cpus"))));
    assert!(matches!(root.model(), Err(FdtError::MissingRequiredProperty("model"))));
}
