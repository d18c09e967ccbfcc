//! Page Attribute Table: the memory types of the eight PAT entries, their
//! encoding in the IA32_PAT MSR, and the page-table bits that select them.
use vstd::prelude::*;

verus! {

/// Address of the IA32_PAT MSR.
pub const IA32_PAT_MSR: u32 = 0x277;

/// Memory type of a PAT entry.
#[derive(PartialEq, Eq, Structural, Clone, Copy, Debug)]
pub enum MemoryType {
    /// Uncacheable (memory-mapped I/O); encoding 0.
    UC,
    /// Write-combining (framebuffers); encoding 1.
    WC,
    /// Reserved; encoding 2.
    Reserved2,
    /// Reserved; encoding 3.
    Reserved3,
    /// Write-through; encoding 4.
    WT,
    /// Write-protected; encoding 5.
    WP,
    /// Write-back (normal memory); encoding 6.
    WB,
    /// Uncacheable, overridable to write-combining; encoding 7.
    UCMinus,
}

/// Encoding of a memory type.
pub open spec fn mt_value(m: MemoryType) -> u8 {
    match m {
        MemoryType::UC => 0,
        MemoryType::WC => 1,
        MemoryType::Reserved2 => 2,
        MemoryType::Reserved3 => 3,
        MemoryType::WT => 4,
        MemoryType::WP => 5,
        MemoryType::WB => 6,
        MemoryType::UCMinus => 7,
    }
}

/// The memory type with encoding `val`, reserved encodings excluded.
pub open spec fn mt_of(val: u8) -> Option<MemoryType> {
    if val == 0 {
        Some(MemoryType::UC)
    } else if val == 1 {
        Some(MemoryType::WC)
    } else if val == 4 {
        Some(MemoryType::WT)
    } else if val == 5 {
        Some(MemoryType::WP)
    } else if val == 6 {
        Some(MemoryType::WB)
    } else if val == 7 {
        Some(MemoryType::UCMinus)
    } else {
        None
    }
}

/// A memory type other than the reserved ones.
pub open spec fn not_reserved(m: MemoryType) -> bool {
    m != MemoryType::Reserved2 && m != MemoryType::Reserved3
}

impl MemoryType {
    /// The memory type with encoding `val`; `None` for reserved and unknown
    /// encodings.
    pub fn from_u8(val: u8) -> (r: Option<MemoryType>)
        ensures
            r == mt_of(val),
    {
        match val {
            0x00 => Some(MemoryType::UC),
            0x01 => Some(MemoryType::WC),
            0x04 => Some(MemoryType::WT),
            0x05 => Some(MemoryType::WP),
            0x06 => Some(MemoryType::WB),
            0x07 => Some(MemoryType::UCMinus),
            _ => None,
        }
    }

    /// Encoding of the memory type.
    pub fn value(&self) -> (r: u8)
        ensures
            r == mt_value(*self),
    {
        match self {
            MemoryType::UC => 0,
            MemoryType::WC => 1,
            MemoryType::Reserved2 => 2,
            MemoryType::Reserved3 => 3,
            MemoryType::WT => 4,
            MemoryType::WP => 5,
            MemoryType::WB => 6,
            MemoryType::UCMinus => 7,
        }
    }

    /// Name of the memory type.
    pub fn name(&self) -> (r: &'static str)
        ensures
            *self == MemoryType::UC ==> r@ == "UC (Uncacheable)"@,
            *self == MemoryType::WC ==> r@ == "WC (Write-Combining)"@,
            *self == MemoryType::WT ==> r@ == "WT (Write-Through)"@,
            *self == MemoryType::WP ==> r@ == "WP (Write-Protected)"@,
            *self == MemoryType::WB ==> r@ == "WB (Write-Back)"@,
            *self == MemoryType::UCMinus ==> r@ == "UC- (Uncacheable)"@,
            !not_reserved(*self) ==> r@ == "Reserved"@,
    {
        match self {
            MemoryType::UC => "UC (Uncacheable)",
            MemoryType::WC => "WC (Write-Combining)",
            MemoryType::WT => "WT (Write-Through)",
            MemoryType::WP => "WP (Write-Protected)",
            MemoryType::WB => "WB (Write-Back)",
            MemoryType::UCMinus => "UC- (Uncacheable)",
            MemoryType::Reserved2 => "Reserved",
            MemoryType::Reserved3 => "Reserved",
        }
    }
}

/// The memory types of the eight PAT entries; entry `n` is selected by the
/// page-table bits PAT, PCD and PWT read as the number `n`.
#[derive(PartialEq, Eq, Structural, Clone, Copy, Debug)]
pub struct PatConfig {
    pub pa0: MemoryType,
    pub pa1: MemoryType,
    pub pa2: MemoryType,
    pub pa3: MemoryType,
    pub pa4: MemoryType,
    pub pa5: MemoryType,
    pub pa6: MemoryType,
    pub pa7: MemoryType,
}

/// Entry `i` of a configuration.
pub open spec fn entry_of(c: PatConfig, i: int) -> MemoryType {
    if i == 0 {
        c.pa0
    } else if i == 1 {
        c.pa1
    } else if i == 2 {
        c.pa2
    } else if i == 3 {
        c.pa3
    } else if i == 4 {
        c.pa4
    } else if i == 5 {
        c.pa5
    } else if i == 6 {
        c.pa6
    } else {
        c.pa7
    }
}

/// The MSR value of a configuration: entry `i` in byte `i`.
pub open spec fn msr_of(c: PatConfig) -> u64 {
    (mt_value(c.pa0) as u64) | ((mt_value(c.pa1) as u64) << 8u64) | ((mt_value(c.pa2) as u64) << 16u64) | ((mt_value(
        c.pa3,
    ) as u64) << 24u64) | ((mt_value(c.pa4) as u64) << 32u64) | ((mt_value(c.pa5) as u64) << 40u64) | ((mt_value(c.pa6)
        as u64) << 48u64) | ((mt_value(c.pa7) as u64) << 56u64)
}

/// Byte `k` (0 ..= 7) of `v`.
pub open spec fn byte_of(v: u64, k: int) -> u8 {
    if k == 0 {
        (v & 0xFF) as u8
    } else if k == 1 {
        ((v >> 8u64) & 0xFF) as u8
    } else if k == 2 {
        ((v >> 16u64) & 0xFF) as u8
    } else if k == 3 {
        ((v >> 24u64) & 0xFF) as u8
    } else if k == 4 {
        ((v >> 32u64) & 0xFF) as u8
    } else if k == 5 {
        ((v >> 40u64) & 0xFF) as u8
    } else if k == 6 {
        ((v >> 48u64) & 0xFF) as u8
    } else {
        ((v >> 56u64) & 0xFF) as u8
    }
}

/// Entry decoded from byte `b`, or the fallback `d` for a reserved or
/// unknown encoding.
pub open spec fn decode_or(b: u8, d: MemoryType) -> MemoryType {
    match mt_of(b) {
        Some(m) => m,
        None => d,
    }
}

/// The configuration an MSR value `v` holds, a reserved or unknown byte
/// read as the power-on type of its entry.
pub open spec fn config_of(v: u64) -> PatConfig {
    PatConfig {
        pa0: decode_or(byte_of(v, 0), MemoryType::WB),
        pa1: decode_or(byte_of(v, 1), MemoryType::WT),
        pa2: decode_or(byte_of(v, 2), MemoryType::UCMinus),
        pa3: decode_or(byte_of(v, 3), MemoryType::UC),
        pa4: decode_or(byte_of(v, 4), MemoryType::WB),
        pa5: decode_or(byte_of(v, 5), MemoryType::WT),
        pa6: decode_or(byte_of(v, 6), MemoryType::UCMinus),
        pa7: decode_or(byte_of(v, 7), MemoryType::UC),
    }
}

impl PatConfig {
    /// The power-on configuration: WB, WT, UC-, UC, repeated.
    pub fn default() -> (r: PatConfig)
        ensures
            r == (PatConfig {
                pa0: MemoryType::WB,
                pa1: MemoryType::WT,
                pa2: MemoryType::UCMinus,
                pa3: MemoryType::UC,
                pa4: MemoryType::WB,
                pa5: MemoryType::WT,
                pa6: MemoryType::UCMinus,
                pa7: MemoryType::UC,
            }),
    {
        PatConfig {
            pa0: MemoryType::WB,
            pa1: MemoryType::WT,
            pa2: MemoryType::UCMinus,
            pa3: MemoryType::UC,
            pa4: MemoryType::WB,
            pa5: MemoryType::WT,
            pa6: MemoryType::UCMinus,
            pa7: MemoryType::UC,
        }
    }

    /// The configuration the kernel uses: WB, WT, UC, UC, WB, WC
    /// (framebuffers), WP, UC.
    pub fn optimized() -> (r: PatConfig)
        ensures
            r == (PatConfig {
                pa0: MemoryType::WB,
                pa1: MemoryType::WT,
                pa2: MemoryType::UC,
                pa3: MemoryType::UC,
                pa4: MemoryType::WB,
                pa5: MemoryType::WC,
                pa6: MemoryType::WP,
                pa7: MemoryType::UC,
            }),
    {
        PatConfig {
            pa0: MemoryType::WB,
            pa1: MemoryType::WT,
            pa2: MemoryType::UC,
            pa3: MemoryType::UC,
            pa4: MemoryType::WB,
            pa5: MemoryType::WC,
            pa6: MemoryType::WP,
            pa7: MemoryType::UC,
        }
    }

    /// The IA32_PAT MSR value: entry `i` in byte `i`.
    pub fn to_msr_value(&self) -> (r: u64)
        ensures
            r == msr_of(*self),
    {
        (self.pa0.value() as u64) | ((self.pa1.value() as u64) << 8u64) | ((self.pa2.value() as u64) << 16u64) | ((
        self.pa3.value() as u64) << 24u64) | ((self.pa4.value() as u64) << 32u64) | ((self.pa5.value() as u64) << 40u64)
            | ((self.pa6.value() as u64) << 48u64) | ((self.pa7.value() as u64) << 56u64)
    }

    /// The configuration an MSR value holds; a reserved or unknown byte
    /// reads as the power-on type of its entry.
    pub fn from_msr_value(val: u64) -> (r: PatConfig)
        ensures
            r.pa0 == decode_or(byte_of(val, 0), MemoryType::WB),
            r.pa1 == decode_or(byte_of(val, 1), MemoryType::WT),
            r.pa2 == decode_or(byte_of(val, 2), MemoryType::UCMinus),
            r.pa3 == decode_or(byte_of(val, 3), MemoryType::UC),
            r.pa4 == decode_or(byte_of(val, 4), MemoryType::WB),
            r.pa5 == decode_or(byte_of(val, 5), MemoryType::WT),
            r.pa6 == decode_or(byte_of(val, 6), MemoryType::UCMinus),
            r.pa7 == decode_or(byte_of(val, 7), MemoryType::UC),
            r == config_of(val),
    {
        PatConfig {
            pa0: MemoryType::from_u8((val & 0xFF) as u8).unwrap_or(MemoryType::WB),
            pa1: MemoryType::from_u8(((val >> 8u64) & 0xFF) as u8).unwrap_or(MemoryType::WT),
            pa2: MemoryType::from_u8(((val >> 16u64) & 0xFF) as u8).unwrap_or(MemoryType::UCMinus),
            pa3: MemoryType::from_u8(((val >> 24u64) & 0xFF) as u8).unwrap_or(MemoryType::UC),
            pa4: MemoryType::from_u8(((val >> 32u64) & 0xFF) as u8).unwrap_or(MemoryType::WB),
            pa5: MemoryType::from_u8(((val >> 40u64) & 0xFF) as u8).unwrap_or(MemoryType::WT),
            pa6: MemoryType::from_u8(((val >> 48u64) & 0xFF) as u8).unwrap_or(MemoryType::UCMinus),
            pa7: MemoryType::from_u8(((val >> 56u64) & 0xFF) as u8).unwrap_or(MemoryType::UC),
        }
    }
}

/// A configuration without reserved entries survives the round trip
/// through the MSR value.
pub proof fn lemma_msr_roundtrip(c: PatConfig)
    requires
        forall|i: int| 0 <= i < 8 ==> not_reserved(#[trigger] entry_of(c, i)),
    ensures
        decode_or(byte_of(msr_of(c), 0), MemoryType::WB) == c.pa0,
        decode_or(byte_of(msr_of(c), 1), MemoryType::WT) == c.pa1,
        decode_or(byte_of(msr_of(c), 2), MemoryType::UCMinus) == c.pa2,
        decode_or(byte_of(msr_of(c), 3), MemoryType::UC) == c.pa3,
        decode_or(byte_of(msr_of(c), 4), MemoryType::WB) == c.pa4,
        decode_or(byte_of(msr_of(c), 5), MemoryType::WT) == c.pa5,
        decode_or(byte_of(msr_of(c), 6), MemoryType::UCMinus) == c.pa6,
        decode_or(byte_of(msr_of(c), 7), MemoryType::UC) == c.pa7,
{
    let a = mt_value(c.pa0) as u64;
    let b = mt_value(c.pa1) as u64;
    let d = mt_value(c.pa2) as u64;
    let e = mt_value(c.pa3) as u64;
    let f = mt_value(c.pa4) as u64;
    let g = mt_value(c.pa5) as u64;
    let h = mt_value(c.pa6) as u64;
    let k = mt_value(c.pa7) as u64;
    let v = msr_of(c);
    assert(v == a | (b << 8u64) | (d << 16u64) | (e << 24u64) | (f << 32u64) | (g << 40u64) | (h << 48u64) | (k << 56u64));
    assert({
        &&& v & 0xFF == a
        &&& (v >> 8u64) & 0xFF == b
        &&& (v >> 16u64) & 0xFF == d
        &&& (v >> 24u64) & 0xFF == e
        &&& (v >> 32u64) & 0xFF == f
        &&& (v >> 40u64) & 0xFF == g
        &&& (v >> 48u64) & 0xFF == h
        &&& (v >> 56u64) & 0xFF == k
    }) by (bit_vector)
        requires
            v == a | (b << 8u64) | (d << 16u64) | (e << 24u64) | (f << 32u64) | (g << 40u64) | (h << 48u64) | (k << 56u64),
            a < 8,
            b < 8,
            d < 8,
            e < 8,
            f < 8,
            g < 8,
            h < 8,
            k < 8,
    ;
    assert(not_reserved(entry_of(c, 0)) && not_reserved(entry_of(c, 1)) && not_reserved(entry_of(c, 2)) && not_reserved(
        entry_of(c, 3),
    ) && not_reserved(entry_of(c, 4)) && not_reserved(entry_of(c, 5)) && not_reserved(entry_of(c, 6)) && not_reserved(
        entry_of(c, 7),
    ));
}

/// An MSR value whose eight bytes all encode memory types survives the round
/// trip through the configuration.
pub proof fn lemma_msr_value_roundtrip(v: u64)
    requires
        forall|k: int| 0 <= k < 8 ==> #[trigger] mt_of(byte_of(v, k)) is Some,
    ensures
        msr_of(config_of(v)) == v,
{
    assert(mt_of(byte_of(v, 0)) is Some && mt_of(byte_of(v, 1)) is Some && mt_of(byte_of(v, 2)) is Some && mt_of(
        byte_of(v, 3),
    ) is Some && mt_of(byte_of(v, 4)) is Some && mt_of(byte_of(v, 5)) is Some && mt_of(byte_of(v, 6)) is Some
        && mt_of(byte_of(v, 7)) is Some);
    let c = config_of(v);
    assert(mt_value(c.pa0) == byte_of(v, 0) && mt_value(c.pa1) == byte_of(v, 1) && mt_value(c.pa2) == byte_of(v, 2)
        && mt_value(c.pa3) == byte_of(v, 3) && mt_value(c.pa4) == byte_of(v, 4) && mt_value(c.pa5) == byte_of(v, 5)
        && mt_value(c.pa6) == byte_of(v, 6) && mt_value(c.pa7) == byte_of(v, 7));
    assert(((v & 0xFF) as u8 as u64) | ((((v >> 8u64) & 0xFF) as u8 as u64) << 8u64) | ((((v >> 16u64) & 0xFF) as u8
        as u64) << 16u64) | ((((v >> 24u64) & 0xFF) as u8 as u64) << 24u64) | ((((v >> 32u64) & 0xFF) as u8 as u64)
        << 32u64) | ((((v >> 40u64) & 0xFF) as u8 as u64) << 40u64) | ((((v >> 48u64) & 0xFF) as u8 as u64) << 48u64)
        | ((((v >> 56u64) & 0xFF) as u8 as u64) << 56u64) == v) by (bit_vector);
}

/// State of the PAT support.
pub struct PatManager {
    supported: bool,
    enabled: bool,
    config: PatConfig,
}

impl PatManager {
    /// Whether the CPU supports PAT.
    pub closed spec fn supported_spec(&self) -> bool {
        self.supported
    }

    /// Whether the kernel enabled its configuration.
    pub closed spec fn enabled_spec(&self) -> bool {
        self.enabled
    }

    /// The configuration in force.
    pub closed spec fn config_spec(&self) -> PatConfig {
        self.config
    }

    /// Unsupported, disabled, with the power-on configuration.
    pub fn new() -> (r: PatManager)
        ensures
            !r.supported_spec(),
            !r.enabled_spec(),
            r.config_spec() == (PatConfig {
                pa0: MemoryType::WB,
                pa1: MemoryType::WT,
                pa2: MemoryType::UCMinus,
                pa3: MemoryType::UC,
                pa4: MemoryType::WB,
                pa5: MemoryType::WT,
                pa6: MemoryType::UCMinus,
                pa7: MemoryType::UC,
            }),
    {
        PatManager { supported: false, enabled: false, config: PatConfig::default() }
    }

    /// Whether the CPU supports PAT.
    pub fn is_supported(&self) -> (r: bool)
        ensures
            r == self.supported_spec(),
    {
        self.supported
    }

    /// Whether the kernel enabled its configuration.
    pub fn is_enabled(&self) -> (r: bool)
        ensures
            r == self.enabled_spec(),
    {
        self.enabled
    }

    /// The configuration in force.
    pub fn config(&self) -> (r: PatConfig)
        ensures
            r == self.config_spec(),
    {
        self.config
    }
}

/// PAT support from CPUID leaf 1's EDX (bit 16).
pub fn check_pat_support(cpuid_1_edx: u32) -> (r: bool)
    ensures
        r == (cpuid_1_edx & 0x1_0000 != 0),
{
    (cpuid_1_edx & 0x1_0000) != 0
}

/// The configuration held by an IA32_PAT MSR value.
pub fn read_pat(msr_value: u64) -> (r: PatConfig)
    ensures
        r.pa0 == decode_or(byte_of(msr_value, 0), MemoryType::WB),
        r.pa1 == decode_or(byte_of(msr_value, 1), MemoryType::WT),
        r.pa2 == decode_or(byte_of(msr_value, 2), MemoryType::UCMinus),
        r.pa3 == decode_or(byte_of(msr_value, 3), MemoryType::UC),
        r.pa4 == decode_or(byte_of(msr_value, 4), MemoryType::WB),
        r.pa5 == decode_or(byte_of(msr_value, 5), MemoryType::WT),
        r.pa6 == decode_or(byte_of(msr_value, 6), MemoryType::UCMinus),
        r.pa7 == decode_or(byte_of(msr_value, 7), MemoryType::UC),
{
    PatConfig::from_msr_value(msr_value)
}

/// Complete PAT initialisation once the optimized configuration has been
/// written: fails without CPU support; otherwise the manager is supported,
/// enabled, and holds the configuration read back from the MSR.
pub fn pat_init(cpuid_1_edx: u32, msr_after_write: u64) -> (r: Result<PatManager, &'static str>)
    ensures
        cpuid_1_edx & 0x1_0000 == 0 ==> (r matches Err(e) && e@ == "PAT not supported"@),
        cpuid_1_edx & 0x1_0000 != 0 ==> (r matches Ok(m) && m.supported_spec() && m.enabled_spec() && m.config_spec()
            == PatConfig::from_msr_value_spec(msr_after_write)),
{
    if !check_pat_support(cpuid_1_edx) {
        return Err("PAT not supported");
    }
    let new_config = read_pat(msr_after_write);
    Ok(PatManager { supported: true, enabled: true, config: new_config })
}

impl PatConfig {
    /// The configuration an MSR value holds (as `from_msr_value` decodes it).
    pub open spec fn from_msr_value_spec(val: u64) -> PatConfig {
        PatConfig {
            pa0: decode_or(byte_of(val, 0), MemoryType::WB),
            pa1: decode_or(byte_of(val, 1), MemoryType::WT),
            pa2: decode_or(byte_of(val, 2), MemoryType::UCMinus),
            pa3: decode_or(byte_of(val, 3), MemoryType::UC),
            pa4: decode_or(byte_of(val, 4), MemoryType::WB),
            pa5: decode_or(byte_of(val, 5), MemoryType::WT),
            pa6: decode_or(byte_of(val, 6), MemoryType::UCMinus),
            pa7: decode_or(byte_of(val, 7), MemoryType::UC),
        }
    }
}

/// Encoding of entry `index` of the manager's configuration; 0xFF for an
/// index past 7 or without a manager.
pub fn pat_get_entry(manager: Option<&PatManager>, index: u8) -> (r: u8)
    ensures
        index > 7 ==> r == 0xFF,
        index <= 7 && manager is None ==> r == 0xFF,
        index <= 7 ==> (manager matches Some(m) ==> r == mt_value(entry_of(m.config_spec(), index as int))),
{
    if index > 7 {
        return 0xFF;
    }
    match manager {
        Some(m) => {
            let config = m.config;
            match index {
                0 => config.pa0.value(),
                1 => config.pa1.value(),
                2 => config.pa2.value(),
                3 => config.pa3.value(),
                4 => config.pa4.value(),
                5 => config.pa5.value(),
                6 => config.pa6.value(),
                7 => config.pa7.value(),
                _ => 0xFF,
            }
        },
        None => 0xFF,
    }
}

/// Page-table bits (PWT bit 3, PCD bit 4, PAT bit 7) selecting a memory
/// type in the optimized configuration; write-back for the types it lacks.
pub fn memory_type_to_flags(mem_type: MemoryType) -> (r: u64)
    ensures
        r == match mem_type {
            MemoryType::WB => 0u64,
            MemoryType::WT => 0x8u64,
            MemoryType::UC => 0x10u64,
            MemoryType::WC => 0x88u64,
            MemoryType::WP => 0x90u64,
            _ => 0u64,
        },
{
    match mem_type {
        MemoryType::WB => 0,
        MemoryType::WT => 0x8,
        MemoryType::UC => 0x10,
        MemoryType::WC => 0x88,
        MemoryType::WP => 0x90,
        _ => 0,
    }
}

/// Bits of normal (write-back) memory: entry 0.
pub fn flags_normal_memory() -> (r: u64)
    ensures
        r == 0,
{
    0
}

/// Bits of write-through memory: PWT, entry 1.
pub fn flags_write_through() -> (r: u64)
    ensures
        r == 0x8,
{
    0x8
}

/// Bits of uncacheable memory: PCD, entry 2.
pub fn flags_uncacheable() -> (r: u64)
    ensures
        r == 0x10,
{
    0x10
}

/// Bits of write-combining memory: PAT and PWT, entry 5.
pub fn flags_write_combining() -> (r: u64)
    ensures
        r == 0x88,
{
    0x88
}

/// Bits of write-protected memory: PAT and PCD, entry 6.
pub fn flags_write_protected() -> (r: u64)
    ensures
        r == 0x90,
{
    0x90
}

/// Index of the PAT entry page-table bits select: PAT (bit 7) gives 4, PCD
/// (bit 4) gives 2, PWT (bit 3) gives 1.
pub open spec fn pat_index(flags: u64) -> int {
    (if flags & 0x80 != 0 { 4int } else { 0int }) + (if flags & 0x10 != 0 { 2int } else { 0int }) + (if flags & 0x8
        != 0 {
        1int
    } else {
        0int
    })
}

/// In the optimized configuration, the bits `memory_type_to_flags` gives
/// for write-back, write-through, uncacheable, write-combining and
/// write-protected memory select an entry of that very type.
pub proof fn lemma_flags_select_type(m: MemoryType)
    requires
        m == MemoryType::WB || m == MemoryType::WT || m == MemoryType::UC || m == MemoryType::WC || m == MemoryType::WP,
    ensures
        entry_of(
            PatConfig {
                pa0: MemoryType::WB,
                pa1: MemoryType::WT,
                pa2: MemoryType::UC,
                pa3: MemoryType::UC,
                pa4: MemoryType::WB,
                pa5: MemoryType::WC,
                pa6: MemoryType::WP,
                pa7: MemoryType::UC,
            },
            pat_index(
                match m {
                    MemoryType::WB => 0u64,
                    MemoryType::WT => 0x8u64,
                    MemoryType::UC => 0x10u64,
                    MemoryType::WC => 0x88u64,
                    MemoryType::WP => 0x90u64,
                    _ => 0u64,
                },
            ),
        ) == m,
{
    lemma_flag_constants();
}

proof fn lemma_flag_constants()
    by (bit_vector)
    ensures
        0x8u64 & 0x80 == 0 && 0x8u64 & 0x10 == 0 && 0x8u64 & 0x8 != 0,
        0x10u64 & 0x80 == 0 && 0x10u64 & 0x10 != 0 && 0x10u64 & 0x8 == 0,
        0x88u64 & 0x80 != 0 && 0x88u64 & 0x10 == 0 && 0x88u64 & 0x8 != 0,
        0x90u64 & 0x80 != 0 && 0x90u64 & 0x10 != 0 && 0x90u64 & 0x8 == 0,
        0u64 & 0x80 == 0 && 0u64 & 0x10 == 0 && 0u64 & 0x8 == 0,
{
}

} // verus!
