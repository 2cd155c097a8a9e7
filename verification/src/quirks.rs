//! Hardware quirks database.
//!
//! Maps camera USB VID:PID pairs to the UVC extension-unit parameters needed
//! to activate their IR emitters. The database is compiled in as TOML text,
//! one document per supported camera, and parsed at lookup time.

use vstd::prelude::*;

verus! {

/// Compiled-in quirk document for the ASUS Zenbook 14 UM3406HA IR camera.
pub const QUIRK_04F2_B6D9: &'static str = "[device]\nvendor_id = 0x04f2\nproduct_id = 0xb6d9\nname = \"ASUS Zenbook 14 UM3406HA IR camera\"\n\n[emitter]\nunit = 4\nselector = 2\ncontrol_bytes = [1, 3, 3, 0, 0, 0, 0, 0, 0]\n";

/// Camera identification fields from the `[device]` section.
#[derive(Debug)]
pub struct DeviceInfo {
    pub vendor_id: u16,
    pub product_id: u16,
    pub name: String,
}

/// UVC extension unit parameters from the `[emitter]` section.
#[derive(Debug)]
pub struct EmitterInfo {
    pub unit: u8,
    pub selector: u8,
    /// Payload bytes sent to activate the emitter.
    /// Zeros of the same length deactivate it.
    pub control_bytes: Vec<u8>,
}

/// One quirk document: a camera and its emitter parameters.
#[derive(Debug)]
pub struct QuirkFile {
    pub device: DeviceInfo,
    pub emitter: EmitterInfo,
}

/// Public alias used by the emitter control path.
pub type CameraQuirk = QuirkFile;

/// Two quirks hold the same data.
pub open spec fn quirk_like(a: QuirkFile, b: QuirkFile) -> bool {
    &&& a.device.vendor_id == b.device.vendor_id
    &&& a.device.product_id == b.device.product_id
    &&& a.device.name@ == b.device.name@
    &&& a.emitter.unit == b.emitter.unit
    &&& a.emitter.selector == b.emitter.selector
    &&& a.emitter.control_bytes@ == b.emitter.control_bytes@
}

impl Clone for DeviceInfo {
    /// Clones keep the identification data.
    fn clone(&self) -> (r: Self)
        ensures
            r == *self,
    {
        DeviceInfo {
            vendor_id: self.vendor_id,
            product_id: self.product_id,
            name: self.name.clone(),
        }
    }
}

impl Clone for EmitterInfo {
    /// Clones keep the emitter parameters.
    fn clone(&self) -> (r: Self)
        ensures
            r.unit == self.unit,
            r.selector == self.selector,
            r.control_bytes@ == self.control_bytes@,
    {
        EmitterInfo {
            unit: self.unit,
            selector: self.selector,
            control_bytes: self.control_bytes.clone(),
        }
    }
}

impl Clone for QuirkFile {
    /// Clones keep the quirk data.
    fn clone(&self) -> (r: Self)
        ensures
            quirk_like(r, *self),
    {
        QuirkFile { device: self.device.clone(), emitter: self.emitter.clone() }
    }
}

/// The quirk a TOML document parses to, when it is a well-formed quirk
/// document; what this is for a given text is decided by the TOML parser.
pub uninterp spec fn parsed_quirk(s: Seq<char>) -> Option<QuirkFile>;

/// Relies on toml::from_str and the plain accessors of toml::Value: the
/// parse result depends on the document text alone, and yields the document's
/// tables and integers or nothing.
#[verifier::external_body]
fn parse_quirk_toml(src: &str) -> (r: Option<QuirkFile>)
    ensures
        r == parsed_quirk(src@),
{
    let v: toml::Value = toml::from_str(src).ok()?;
    let d = v.get("device")?;
    let e = v.get("emitter")?;
    let mut control_bytes = Vec::new();
    for b in e.get("control_bytes")?.as_array()? {
        control_bytes.push(b.as_integer()? as u8);
    }
    let vendor_id = d.get("vendor_id")?.as_integer()? as u16;
    let product_id = d.get("product_id")?.as_integer()? as u16;
    let name = d.get("name")?.as_str()?.to_owned();
    let unit = e.get("unit")?.as_integer()? as u8;
    let selector = e.get("selector")?.as_integer()? as u8;
    let device = DeviceInfo { vendor_id, product_id, name };
    Some(QuirkFile { device, emitter: EmitterInfo { unit, selector, control_bytes } })
}

/// The compiled-in database: the parse results of the embedded documents,
/// in order, skipping any document that does not parse.
pub open spec fn builtin_db_spec() -> Seq<QuirkFile> {
    match parsed_quirk(QUIRK_04F2_B6D9@) {
        Some(q) => seq![q],
        None => Seq::empty(),
    }
}

/// Parse the compiled-in quirk documents into the quirk database.
pub fn builtin_quirk_db() -> (r: Vec<QuirkFile>)
    ensures
        r@ == builtin_db_spec(),
{
    let mut db: Vec<QuirkFile> = Vec::new();
    match parse_quirk_toml(QUIRK_04F2_B6D9) {
        Some(q) => {
            db.push(q);
            proof {
                assert(db@ =~= builtin_db_spec());
            }
        },
        None => {
            proof {
                assert(db@ =~= builtin_db_spec());
            }
        },
    }
    db
}

/// `q` is the quirk for the USB device `vid:pid`.
pub open spec fn quirk_matches(q: QuirkFile, vid: u16, pid: u16) -> bool {
    q.device.vendor_id == vid && q.device.product_id == pid
}

/// Look up a quirk by USB vendor and product id: a copy of the first
/// compiled-in quirk for that device, if any.
pub fn lookup_quirk(vid: u16, pid: u16) -> (r: Option<QuirkFile>)
    ensures
        match r {
            Some(q) => exists|i: int|
                {
                    &&& 0 <= i < builtin_db_spec().len()
                    &&& quirk_matches(#[trigger] builtin_db_spec()[i], vid, pid)
                    &&& quirk_like(q, builtin_db_spec()[i])
                    &&& forall|j: int| 0 <= j < i ==> !quirk_matches(
                        #[trigger] builtin_db_spec()[j],
                        vid,
                        pid,
                    )
                },
            None => forall|i: int|
                0 <= i < builtin_db_spec().len() ==> !quirk_matches(
                    #[trigger] builtin_db_spec()[i],
                    vid,
                    pid,
                ),
        },
{
    let db = builtin_quirk_db();
    let mut i: usize = 0;
    while i < db.len()
        invariant
            db@ == builtin_db_spec(),
            i <= db@.len(),
            forall|j: int| 0 <= j < i ==> !quirk_matches(#[trigger] builtin_db_spec()[j], vid, pid),
        decreases db@.len() - i,
    {
        if db[i].device.vendor_id == vid && db[i].device.product_id == pid {
            let q = db[i].clone();
            return Some(q);
        }
        i = i + 1;
    }
    None
}

/// All compiled-in quirks.
pub fn list_quirks() -> (r: Vec<QuirkFile>)
    ensures
        r@ == builtin_db_spec(),
{
    builtin_quirk_db()
}

/// Value of a hexadecimal digit byte, or -1 when the byte is no hex digit.
pub open spec fn hex_digit(b: u8) -> int {
    if 48 <= b <= 57 {
        b - 48
    } else if 97 <= b <= 102 {
        b - 87
    } else if 65 <= b <= 70 {
        b - 55
    } else {
        -1
    }
}

/// Value of the first `n` bytes read as big-endian hexadecimal digits.
pub open spec fn hex_value(s: Seq<u8>, n: int) -> int
    decreases n,
{
    if n <= 0 {
        0
    } else {
        hex_value(s, n - 1) * 16 + hex_digit(s[n - 1])
    }
}

/// All of the first `n` bytes are hexadecimal digits.
pub open spec fn all_hex(s: Seq<u8>, n: int) -> bool {
    forall|i: int| 0 <= i < n ==> hex_digit(#[trigger] s[i]) >= 0
}

/// With valid digits, the running value never shrinks.
proof fn lemma_hex_value_monotone(s: Seq<u8>, k: int, n: int)
    requires
        0 <= k <= n,
        all_hex(s, n),
        hex_value(s, k) >= 0,
    ensures
        hex_value(s, n) >= hex_value(s, k),
    decreases n - k,
{
    if k < n {
        assert(hex_value(s, k) * 16 >= hex_value(s, k)) by (nonlinear_arith)
            requires
                hex_value(s, k) >= 0,
        ;
        lemma_hex_value_monotone(s, k + 1, n);
    }
}

/// Parse a string of hexadecimal digit bytes as a 16-bit USB id: succeeds
/// exactly on nonempty all-hex inputs whose value fits 16 bits.
pub fn parse_hex_u16(digits: &[u8]) -> (r: Option<u16>)
    ensures
        match r {
            Some(v) => {
                &&& digits@.len() >= 1
                &&& all_hex(digits@, digits@.len() as int)
                &&& v == hex_value(digits@, digits@.len() as int)
            },
            None => digits@.len() == 0 || !all_hex(digits@, digits@.len() as int) || hex_value(
                digits@,
                digits@.len() as int,
            ) > u16::MAX,
        },
{
    if digits.len() == 0 {
        return None;
    }
    let mut acc: u32 = 0;
    let mut i: usize = 0;
    while i < digits.len()
        invariant
            i <= digits@.len(),
            all_hex(digits@, i as int),
            acc == hex_value(digits@, i as int),
            acc <= u16::MAX,
        decreases digits@.len() - i,
    {
        let b = digits[i];
        let d: u32 = if 48 <= b && b <= 57 {
            (b - 48) as u32
        } else if 97 <= b && b <= 102 {
            (b - 87) as u32
        } else if 65 <= b && b <= 70 {
            (b - 55) as u32
        } else {
            return None;
        };
        let next: u32 = acc * 16 + d;
        if next > u16::MAX as u32 {
            proof {
                assert(hex_value(digits@, i + 1) == next);
                if all_hex(digits@, digits@.len() as int) {
                    lemma_hex_value_monotone(digits@, i + 1, digits@.len() as int);
                }
            }
            return None;
        }
        acc = next;
        i = i + 1;
    }
    Some(acc as u16)
}

} // verus!
