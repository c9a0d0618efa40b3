use vstd::prelude::*;

use crate::text::{
    chars_eq, chars_of, opt_chars, push_chars, push_str, string_of, trim, trimmed,
};

verus! {

/// A graphics card as described by sysfs.
pub struct GpuInfo {
    pub card_name: String,
    pub driver: String,
    pub pci_vendor: String,
    pub pci_device: String,
    pub description: String,
}

/// The vendor named by a PCI vendor ID.
pub open spec fn vendor_name(vendor_id: Seq<char>) -> Seq<char> {
    if vendor_id == "0x8086"@ {
        "Intel"@
    } else if vendor_id == "0x1002"@ {
        "AMD"@
    } else if vendor_id == "0x10de"@ {
        "NVIDIA"@
    } else {
        "Unknown"@
    }
}

/// A description of a kernel driver; unknown drivers are described by their name.
pub open spec fn driver_description(driver: Seq<char>) -> Seq<char> {
    if driver == "i915"@ {
        "Intel i915"@
    } else if driver == "xe"@ {
        "Intel Xe"@
    } else if driver == "amdgpu"@ {
        "AMD GPU"@
    } else if driver == "radeon"@ {
        "AMD Radeon (legacy)"@
    } else if driver == "nouveau"@ {
        "NVIDIA Nouveau"@
    } else if driver == "nvidia"@ {
        "NVIDIA (proprietary)"@
    } else {
        driver
    }
}

/// `vendor (driver description)`.
pub open spec fn gpu_description(vendor_id: Seq<char>, driver: Seq<char>) -> Seq<char> {
    vendor_name(vendor_id) + " ("@ + driver_description(driver) + ")"@
}

fn same(a: &[char], b: &str) -> (r: bool)
    ensures
        r == (a@ == b@),
{
    let bc = chars_of(b);
    chars_eq(a, bc.as_slice())
}

/// A one-line description of a GPU from its PCI vendor ID and driver name.
pub fn describe_gpu(vendor_id: &str, driver: &str) -> (s: String)
    ensures
        s@ == gpu_description(vendor_id@, driver@),
{
    let v = chars_of(vendor_id);
    let d = chars_of(driver);
    let mut out: Vec<char> = Vec::new();
    if same(v.as_slice(), "0x8086") {
        push_str(&mut out, "Intel");
    } else if same(v.as_slice(), "0x1002") {
        push_str(&mut out, "AMD");
    } else if same(v.as_slice(), "0x10de") {
        push_str(&mut out, "NVIDIA");
    } else {
        push_str(&mut out, "Unknown");
    }
    push_str(&mut out, " (");
    if same(d.as_slice(), "i915") {
        push_str(&mut out, "Intel i915");
    } else if same(d.as_slice(), "xe") {
        push_str(&mut out, "Intel Xe");
    } else if same(d.as_slice(), "amdgpu") {
        push_str(&mut out, "AMD GPU");
    } else if same(d.as_slice(), "radeon") {
        push_str(&mut out, "AMD Radeon (legacy)");
    } else if same(d.as_slice(), "nouveau") {
        push_str(&mut out, "NVIDIA Nouveau");
    } else if same(d.as_slice(), "nvidia") {
        push_str(&mut out, "NVIDIA (proprietary)");
    } else {
        push_chars(&mut out, d.as_slice());
    }
    push_str(&mut out, ")");
    string_of(out.as_slice())
}

/// The mathematical content of a `GpuInfo`.
pub struct GpuView {
    pub card_name: Seq<char>,
    pub driver: Seq<char>,
    pub pci_vendor: Seq<char>,
    pub pci_device: Seq<char>,
    pub description: Seq<char>,
}

impl View for GpuInfo {
    type V = GpuView;

    open spec fn view(&self) -> GpuView {
        GpuView {
            card_name: self.card_name@,
            driver: self.driver@,
            pci_vendor: self.pci_vendor@,
            pci_device: self.pci_device@,
            description: self.description@,
        }
    }
}

/// A sysfs file's content trimmed, or empty where it could not be read.
pub open spec fn trimmed_or_empty(raw: Option<Seq<char>>) -> Seq<char> {
    match raw {
        Some(t) => trimmed(t),
        None => Seq::empty(),
    }
}

/// What the sysfs entries of a card describe: its directory name, the name its
/// `driver` link points to (where it could be read), and its `vendor` and `device` files.
pub open spec fn gpu_of(
    card_name: Seq<char>,
    driver: Option<Seq<char>>,
    vendor: Option<Seq<char>>,
    device: Option<Seq<char>>,
) -> GpuView {
    let d = match driver {
        Some(n) => n,
        None => "unknown"@,
    };
    GpuView {
        card_name: card_name,
        driver: d,
        pci_vendor: trimmed_or_empty(vendor),
        pci_device: trimmed_or_empty(device),
        description: gpu_description(trimmed_or_empty(vendor), d),
    }
}

fn trim_or_empty(raw: Option<String>) -> (s: String)
    ensures
        s@ == trimmed_or_empty(opt_chars(raw)),
{
    match raw {
        Some(t) => trim(t.as_str()),
        None => String::new(),
    }
}

/// Assembles a GPU description from what was read of the card's sysfs directory.
pub fn gpu_info_from_sysfs(
    card_name: String,
    driver: Option<String>,
    vendor: Option<String>,
    device: Option<String>,
) -> (g: GpuInfo)
    ensures
        g@ == gpu_of(card_name@, opt_chars(driver), opt_chars(vendor), opt_chars(device)),
{
    let driver = match driver {
        Some(n) => n,
        None => String::from_str("unknown"),
    };
    let pci_vendor = trim_or_empty(vendor);
    let pci_device = trim_or_empty(device);
    let description = describe_gpu(pci_vendor.as_str(), driver.as_str());
    GpuInfo { card_name, driver, pci_vendor, pci_device, description }
}

} // verus!
