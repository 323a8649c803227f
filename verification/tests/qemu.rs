use fdt::nodes::NodeName;
use fdt::properties::cells::CellSizes;
use fdt::Fdt;

/// Writes a flattened devicetree: header, empty reservation map, structure
/// block and strings block.
struct Blob {
    structs: Vec<u8>,
    strings: Vec<u8>,
}

impl Blob {
    fn new() -> Self {
        Blob { structs: Vec::new(), strings: Vec::new() }
    }

    fn word(&mut self, v: u32) {
        self.structs.extend_from_slice(&v.to_be_bytes());
    }

    fn pad(&mut self) {
        while self.structs.len() % 4 != 0 {
            self.structs.push(0);
        }
    }

    fn begin(&mut self, name: &str) {
        self.word(1);
        self.structs.extend_from_slice(name.as_bytes());
        self.structs.push(0);
        self.pad();
    }

    fn end(&mut self) {
        self.word(2);
    }

    fn name_offset(&mut self, name: &str) -> u32 {
        let mut start = 0;
        while start < self.strings.len() {
            let end = start + self.strings[start..].iter().position(|b| *b == 0).unwrap();
            if &self.strings[start..end] == name.as_bytes() {
                return start as u32;
            }
            start = end + 1;
        }
        let off = self.strings.len() as u32;
        self.strings.extend_from_slice(name.as_bytes());
        self.strings.push(0);
        off
    }

    fn prop(&mut self, name: &str, value: &[u8]) {
        let off = self.name_offset(name);
        self.word(3);
        self.word(value.len() as u32);
        self.word(off);
        self.structs.extend_from_slice(value);
        self.pad();
    }

    fn finish(mut self) -> Vec<u8> {
        self.word(9);
        let structs_offset = 40 + 16;
        let strings_offset = structs_offset + self.structs.len();
        let total = strings_offset + self.strings.len();
        let mut out = Vec::new();
        for v in [
            0xd00dfeedu32,
            total as u32,
            structs_offset as u32,
            strings_offset as u32,
            40,
            17,
            16,
            0,
            self.strings.len() as u32,
            self.structs.len() as u32,
        ] {
            out.extend_from_slice(&v.to_be_bytes());
        }
        out.extend_from_slice(&[0u8; 16]);
        out.extend_from_slice(&self.structs);
        out.extend_from_slice(&self.strings);
        out
    }
}

fn cells(v: &[u32]) -> Vec<u8> {
    v.iter().flat_map(|c| c.to_be_bytes()).collect()
}

fn text(s: &str) -> Vec<u8> {
    let mut v = s.as_bytes().to_vec();
    v.push(0);
    v
}

fn node_with_reg(b: &mut Blob, name: &str, reg: &[u32], compatible: &str) {
    b.begin(name);
    b.prop("interrupts", &cells(&[1]));
    b.prop("interrupt-parent", &cells(&[3]));
    b.prop("reg", &cells(reg));
    b.prop("compatible", &text(compatible));
    b.end();
}

/// The devicetree that QEMU's RISC-V `virt` machine describes itself with,
/// as `u32` words.
fn virt() -> Vec<u32> {
    let mut b = Blob::new();
    b.begin("");
    b.prop("#address-cells", &cells(&[2]));
    b.prop("#size-cells", &cells(&[2]));
    b.prop("compatible", &text("riscv-virtio"));
    b.prop("model", &text("riscv-virtio,qemu"));

    b.begin("chosen");
    b.prop("bootargs", &text(""));
    b.prop("stdout-path", &text("/uart@10000000"));
    b.end();

    b.begin("memory@80000000");
    b.prop("device_type", &text("memory"));
    b.prop("reg", &cells(&[0, 0x8000_0000, 0, 0x0800_0000]));
    b.end();

    b.begin("cpus");
    b.prop("#address-cells", &cells(&[1]));
    b.prop("#size-cells", &cells(&[0]));
    b.prop("timebase-frequency", &cells(&[10_000_000]));
    b.begin("cpu@0");
    b.prop("phandle", &cells(&[1]));
    b.prop("device_type", &text("cpu"));
    b.prop("reg", &cells(&[0]));
    b.prop("status", &text("okay"));
    b.prop("compatible", &text("riscv"));
    b.prop("riscv,isa", &text("rv64imafdcsu"));
    b.prop("mmu-type", &text("riscv,sv48"));
    b.begin("interrupt-controller");
    b.prop("#interrupt-cells", &cells(&[1]));
    b.prop("interrupt-controller", &[]);
    b.prop("compatible", &text("riscv,cpu-intc"));
    b.prop("phandle", &cells(&[2]));
    b.end();
    b.end();
    b.begin("cpu-map");
    b.begin("cluster0");
    b.begin("core0");
    b.prop("cpu", &cells(&[1]));
    b.end();
    b.end();
    b.end();
    b.end();

    b.begin("emptyproptest");
    b.end();

    b.begin("soc");
    b.prop("#address-cells", &cells(&[2]));
    b.prop("#size-cells", &cells(&[2]));
    b.prop("compatible", &text("simple-bus"));
    b.prop("ranges", &[]);
    b.begin("flash@20000000");
    b.prop("bank-width", &cells(&[4]));
    b.prop("reg", &cells(&[0, 0x2000_0000, 0, 0x0200_0000, 0, 0x2200_0000, 0, 0x0200_0000]));
    b.prop("compatible", &text("cfi-flash"));
    b.end();
    node_with_reg(&mut b, "rtc@101000", &[0, 0x10_1000, 0, 0x1000], "google,goldfish-rtc");
    node_with_reg(&mut b, "uart@10000000", &[0, 0x1000_0000, 0, 0x100], "ns16550a");
    b.begin("poweroff");
    b.prop("value", &cells(&[0x5555]));
    b.prop("offset", &cells(&[0]));
    b.prop("regmap", &cells(&[4]));
    b.prop("compatible", &text("syscon-poweroff"));
    b.end();
    b.begin("reboot");
    b.prop("value", &cells(&[0x7777]));
    b.prop("offset", &cells(&[0]));
    b.prop("regmap", &cells(&[4]));
    b.prop("compatible", &text("syscon-reboot"));
    b.end();
    b.begin("test@100000");
    b.prop("phandle", &cells(&[4]));
    b.prop("reg", &cells(&[0, 0x10_0000, 0, 0x1000]));
    b.prop("compatible", b"sifive,test1\0sifive,test0\0syscon\0");
    b.end();
    b.begin("pci@30000000");
    b.prop("#address-cells", &cells(&[3]));
    b.prop("#size-cells", &cells(&[2]));
    b.prop("#interrupt-cells", &cells(&[1]));
    b.prop("device_type", &text("pci"));
    b.prop("reg", &cells(&[0, 0x3000_0000, 0, 0x1000_0000]));
    b.prop(
        "ranges",
        &cells(&[0x0100_0000, 0, 0, 0, 0x0300_0000, 0, 0x1_0000, 0x0200_0000, 0, 0x4000_0000, 0, 0x4000_0000, 0, 0x4000_0000]),
    );
    b.prop("compatible", &text("pci-host-ecam-generic"));
    b.end();
    for unit in [8u32, 7, 6, 5, 4, 3, 2, 1] {
        let name = format!("virtio_mmio@1000{}000", unit);
        node_with_reg(&mut b, &name, &[0, 0x1000_0000 + unit * 0x1000, 0, 0x1000], "virtio,mmio");
    }
    b.begin("plic@c000000");
    b.prop("phandle", &cells(&[3]));
    b.prop("riscv,ndev", &cells(&[0x35]));
    b.prop("reg", &cells(&[0, 0x0c00_0000, 0, 0x0400_0000]));
    b.prop("interrupt-controller", &[]);
    b.prop("compatible", &text("riscv,plic0"));
    b.end();
    b.begin("clint@2000000");
    b.prop("reg", &cells(&[0, 0x0200_0000, 0, 0x1_0000]));
    b.prop("compatible", &text("riscv,clint0"));
    b.end();
    b.end();

    b.end();
    let mut bytes = b.finish();
    while bytes.len() % 4 != 0 {
        bytes.push(0);
    }
    bytes.chunks(4).map(|c| u32::from_ne_bytes([c[0], c[1], c[2], c[3]])).collect()
}

#[test]
fn returns_fdt() {
    let words = virt();
    assert!(Fdt::new(&words).is_ok());
}

#[test]
fn root() {
    let words = virt();
    let fdt = Fdt::new(&words).unwrap();
    std::println!("{:?}", fdt.root().map(|r| r.as_node().raw_body().len()));
}

#[test]
fn all_nodes() {
    let words = virt();
    let fdt = Fdt::new(&words).unwrap();
    let mut it = fdt.root().unwrap().all_nodes().unwrap();
    let mut lines = Vec::new();
    while let Some(n) = it.next() {
        let (depth, n) = n.unwrap();
        lines.push(format!("{depth} {}", n.name().unwrap().display()));
    }
    assert_eq!(
        lines.join("\n"),
        "1 chosen
1 memory@80000000
1 cpus
2 cpu@0
3 interrupt-controller
2 cpu-map
3 cluster0
4 core0
1 emptyproptest
1 soc
2 flash@20000000
2 rtc@101000
2 uart@10000000
2 poweroff
2 reboot
2 test@100000
2 pci@30000000
2 virtio_mmio@10008000
2 virtio_mmio@10007000
2 virtio_mmio@10006000
2 virtio_mmio@10005000
2 virtio_mmio@10004000
2 virtio_mmio@10003000
2 virtio_mmio@10002000
2 virtio_mmio@10001000
2 plic@c000000
2 clint@2000000"
    );
}

#[test]
fn finds_root_node() {
    let words = virt();
    let fdt = Fdt::new(&words).unwrap();
    assert!(fdt.root().unwrap().find_node("/").unwrap().is_some(), "couldn't find root node");
}

#[test]
fn finds_root_node_properties() {
    let words = virt();
    let fdt = Fdt::new(&words).unwrap();
    let prop = fdt.root().unwrap().find_node("/").unwrap().unwrap().properties().unwrap().find("compatible").unwrap().unwrap();

    assert_eq!(prop.value(), b"riscv-virtio\0");

    let fdt = Fdt::new_fallible(&words).unwrap();
    let prop = fdt
        .root()
        .unwrap()
        .find_node("/")
        .unwrap()
        .unwrap()
        .properties()
        .unwrap()
        .find("compatible")
        .unwrap()
        .unwrap();

    assert_eq!(prop.value(), b"riscv-virtio\0");
}

#[test]
fn finds_child_of_root_node() {
    let words = virt();
    let fdt = Fdt::new(&words).unwrap();
    let root = fdt.root().unwrap();
    assert_eq!(
        root.find_node("/cpus").unwrap().unwrap().name().unwrap(),
        NodeName { name: "cpus", unit_address: None },
        "couldn't find cpus node"
    );

    assert_eq!(
        root.find_node("/cpus/cpu@0/interrupt-controller").unwrap().unwrap().name().unwrap(),
        NodeName { name: "interrupt-controller", unit_address: None },
        "couldn't find interrupt-controller node"
    );

    assert!(
        root.find_node("/cpus/cpu@1/interrupt-controller").unwrap().is_none(),
        "couldn't find interrupt-controller node"
    );
}

#[test]
fn finds_child_with_unit_address() {
    let words = virt();
    let fdt = Fdt::new(&words).unwrap();
    let root = fdt.root().unwrap();
    assert_eq!(
        root.find_node("/memory@80000000").unwrap().unwrap().name().unwrap(),
        NodeName { name: "memory", unit_address: Some("80000000") },
        "couldn't find cpus node"
    );
    assert!(root.find_node("/memory@80000001").unwrap().is_none(), "didn't use unit address to filter!");
}

#[test]
fn properties() {
    let words = virt();
    let fdt = Fdt::new(&words).unwrap();
    let test = fdt.root().unwrap().find_node("/soc/test").unwrap().unwrap();

    let mut it = test.properties().unwrap().iter();
    let mut props = Vec::new();
    while let Some(p) = it.next() {
        let p = p.unwrap();
        props.push((p.name(), p.value()));
    }

    assert_eq!(
        props,
        &[
            ("phandle", &[0, 0, 0, 4][..]),
            ("reg", &[0, 0, 0, 0, 0, 16, 0, 0, 0, 0, 0, 0, 0, 0, 16, 0]),
            ("compatible", b"sifive,test1\0sifive,test0\0syscon\0"),
        ]
    );
}

#[test]
fn cell_sizes() {
    let words = virt();
    let fdt = Fdt::new(&words).unwrap();
    let root = fdt.root().unwrap();

    let cpu_cs = root.find_node("/cpus").unwrap().unwrap().property::<CellSizes>().unwrap().unwrap();
    assert_eq!(cpu_cs, CellSizes { address_cells: 1, size_cells: 0 });

    let soc_sc = root.find_node("/soc").unwrap().unwrap().property::<CellSizes>().unwrap().unwrap();
    let test_cs = root.find_node("/soc/test").unwrap().unwrap().property::<CellSizes>().unwrap();
    let pci_cs = root.find_node("/soc/pci").unwrap().unwrap().property::<CellSizes>().unwrap().unwrap();
    assert_eq!(soc_sc, CellSizes { address_cells: 2, size_cells: 2 });
    assert_eq!(test_cs, None);
    assert_ne!(pci_cs, soc_sc);
}
