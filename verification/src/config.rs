//! Resolution of declared device sections into concrete `Device` records.

use crate::text::{
    parse_u64, spec_fields, spec_lines, spec_parse_u64, str_eq, str_starts_with,
};
use vstd::prelude::*;

verus! {

/// Device names are the literal prefix `zram` followed by the decimal
/// kernel device index.
pub open spec fn zram_prefix() -> Seq<char> {
    seq!['z', 'r', 'a', 'm']
}

pub open spec fn starts_with_zram(s: Seq<char>) -> bool {
    zram_prefix().is_prefix_of(s)
}

/// A well-formed device name: the `zram` prefix followed by at least
/// one decimal digit denoting an index that fits in 64 bits.
pub open spec fn is_zram_name(s: Seq<char>) -> bool {
    starts_with_zram(s) && spec_parse_u64(s.skip(4)) is Some
}

/// The kernel device index encoded in a well-formed device name.
pub open spec fn zram_index(s: Seq<char>) -> u64 {
    spec_parse_u64(s.skip(4)).unwrap()
}

/// Whether a section name carries the `zram` prefix that marks it as a
/// device declaration.
pub fn has_zram_prefix(s: &str) -> (r: bool)
    ensures
        r == starts_with_zram(s@),
{
    proof {
        reveal_strlit("zram");
        assert("zram"@ =~= zram_prefix());
    }
    str_starts_with(s, "zram")
}

/// The device index of a well-formed `zram<N>` name; `None` when the
/// name is malformed.
pub fn device_index(name: &str) -> (r: Option<u64>)
    ensures
        r == if is_zram_name(name@) {
            Some(zram_index(name@))
        } else {
            None::<u64>
        },
{
    if !has_zram_prefix(name) {
        return None;
    }
    let n = name.unicode_len();
    let suffix = name.substring_char(4, n);
    proof {
        assert(suffix@ =~= name@.skip(4));
    }
    parse_u64(suffix)
}

/// A non-negative decimal fraction, kept exact as numerator over a
/// power-of-ten denominator.
#[derive(Clone, Copy, PartialEq, Eq, Structural, Debug)]
pub struct Fraction {
    pub num: u64,
    pub den: u64,
}

impl Fraction {
    /// Denominators are the positive powers of ten a decimal literal
    /// can produce.
    pub open spec fn wf(self) -> bool {
        exists|k: int| 0 <= k <= 19 && self.den == pow10(k)
    }
}

pub open spec fn pow10(k: int) -> int
    decreases k,
{
    if k <= 0 {
        1
    } else {
        10 * pow10(k - 1)
    }
}

proof fn lemma_pow10_pos(k: int)
    ensures
        pow10(k) >= 1,
    decreases k,
{
    if k > 0 {
        lemma_pow10_pos(k - 1);
    }
}

proof fn lemma_pow10_le(i: int, j: int)
    requires
        i <= j,
    ensures
        pow10(i) <= pow10(j),
    decreases j - i,
{
    lemma_pow10_pos(i);
    if i < j {
        lemma_pow10_le(i, j - 1);
        lemma_pow10_pos(j - 1);
    }
}

/// Number of characters before the first `.`, or the whole length when
/// there is none.
pub open spec fn dot_split_len(s: Seq<char>) -> int
    decreases s.len(),
{
    if s.len() == 0 || s[0] == '.' {
        0
    } else {
        1 + dot_split_len(s.drop_first())
    }
}

proof fn lemma_dot_split_len_from(s: Seq<char>, i: int, j: int)
    requires
        0 <= i <= j <= s.len(),
        forall|k: int| i <= k < j ==> #[trigger] s[k] != '.',
        j == s.len() || s[j] == '.',
    ensures
        dot_split_len(s.skip(i)) == j - i,
    decreases j - i,
{
    if i < j {
        assert(s.skip(i).drop_first() =~= s.skip(i + 1));
        assert(s.skip(i)[0] == s[i]);
        lemma_dot_split_len_from(s, i + 1, j);
    }
}

/// A decimal fraction literal: digits, an optional dot, more digits; at
/// least one digit in all; the denoted numerator must fit in 64 bits
/// and at most 19 fractional digits are accepted.
pub open spec fn spec_parse_fraction(s: Seq<char>) -> Option<Fraction> {
    let k = dot_split_len(s);
    if k == s.len() {
        match spec_parse_u64(s) {
            Some(v) => Some(Fraction { num: v, den: 1 }),
            None => None,
        }
    } else {
        let int_part = s.take(k);
        let frac_part = s.skip(k + 1);
        match spec_parse_u64(int_part + frac_part) {
            Some(v) => if frac_part.len() <= 19 {
                Some(Fraction { num: v, den: pow10(frac_part.len() as int) as u64 })
            } else {
                None
            },
            None => None,
        }
    }
}

/// Ten to the `k`-th, for the denominators a fraction literal can have.
fn pow10_u64(k: usize) -> (r: u64)
    requires
        k <= 19,
    ensures
        r == pow10(k as int),
        r >= 1,
{
    proof {
        lemma_pow10_pos(k as int);
    }
    let mut den: u64 = 1;
    let mut i: usize = 0;
    while i < k
        invariant
            0 <= i <= k <= 19,
            den == pow10(i as int),
        decreases k - i,
    {
        proof {
            lemma_pow10_le(i as int, 18);
            reveal_with_fuel(pow10, 20);
            assert(pow10(18) == 1000000000000000000);
        }
        den = den * 10;
        i += 1;
    }
    den
}

/// Parses a decimal fraction such as `0.25`.
pub fn parse_fraction(s: &str) -> (r: Option<Fraction>)
    ensures
        r == spec_parse_fraction(s@),
        r matches Some(f) ==> f.wf() && f.den >= 1,
{
    let n = s.unicode_len();
    let mut dot: usize = n;
    let mut i: usize = 0;
    while i < n && s.get_char(i) != '.'
        invariant
            n == s@.len(),
            0 <= i <= n,
            forall|k: int| 0 <= k < i ==> #[trigger] s@[k] != '.',
        decreases n - i,
    {
        i += 1;
    }
    dot = i;
    proof {
        lemma_dot_split_len_from(s@, 0, dot as int);
        assert(s@.skip(0) =~= s@);
    }
    if dot == n {
        match parse_u64(s) {
            Some(v) => {
                proof {
                    assert((Fraction { num: v, den: 1 }).den == pow10(0));
                }
                Some(Fraction { num: v, den: 1 })
            },
            None => None,
        }
    } else {
        let int_part = s.substring_char(0, dot);
        let frac_part = s.substring_char(dot + 1, n);
        let mut joined = String::from_str(int_part);
        joined.append(frac_part);
        proof {
            assert(int_part@ =~= s@.take(dot as int));
            assert(frac_part@ =~= s@.skip(dot + 1));
        }
        let frac_len = n - (dot + 1);
        match parse_u64(joined.as_str()) {
            Some(v) => {
                if frac_len <= 19 {
                    let den = pow10_u64(frac_len);
                    proof {
                        assert((Fraction { num: v, den }).den == pow10(frac_len as int));
                        lemma_pow10_le(frac_len as int, 19);
                        reveal_with_fuel(pow10, 21);
                        assert(pow10(19) == 10000000000000000000);
                    }
                    Some(Fraction { num: v, den })
                } else {
                    None
                }
            },
            None => None,
        }
    }
}

/// An optional size value: the literal `none`, or a decimal number of
/// megabytes.  The outer `None` marks a malformed value.
pub open spec fn spec_parse_optional_size(s: Seq<char>) -> Option<Option<u64>> {
    if s == seq!['n', 'o', 'n', 'e'] {
        Some(None)
    } else {
        match spec_parse_u64(s) {
            Some(v) => Some(Some(v)),
            None => None,
        }
    }
}

/// Parses a `host-memory-limit`-style value.
pub fn parse_optional_size(val: &str) -> (r: Option<Option<u64>>)
    ensures
        r == spec_parse_optional_size(val@),
{
    proof {
        reveal_strlit("none");
        assert("none"@ =~= seq!['n', 'o', 'n', 'e']);
    }
    if str_eq(val, "none") {
        Some(None)
    } else {
        match parse_u64(val) {
            Some(v) => Some(Some(v)),
            None => None,
        }
    }
}

/// The resolved size in bytes: the fraction of total memory in whole
/// megabytes, capped by the configured maximum, times one mebibyte;
/// saturating at the 64-bit limit.
pub open spec fn spec_disksize(frac: Fraction, memtotal_mb: u64, max_mb: Option<u64>) -> int {
    let mb = (frac.num * memtotal_mb) as int / frac.den as int;
    let capped = match max_mb {
        Some(m) => if m < mb {
            m as int
        } else {
            mb
        },
        None => mb,
    };
    if capped * 0x100000 > u64::MAX {
        u64::MAX as int
    } else {
        capped * 0x100000
    }
}

/// Computes the device size in bytes from the configured fraction of
/// total memory and the optional size cap.
pub fn compute_disksize(frac: &Fraction, memtotal_mb: u64, max_mb: &Option<u64>) -> (r: u64)
    requires
        frac.den >= 1,
    ensures
        r == spec_disksize(*frac, memtotal_mb, *max_mb),
{
    proof {
        assert((frac.num as int) * (memtotal_mb as int) <= u128::MAX) by (nonlinear_arith)
            requires
                frac.num <= u64::MAX,
                memtotal_mb <= u64::MAX,
        ;
    }
    let prod: u128 = (frac.num as u128) * (memtotal_mb as u128);
    let mb: u128 = prod / (frac.den as u128);
    let capped: u128 = match max_mb {
        Some(m) => {
            if (*m as u128) < mb {
                *m as u128
            } else {
                mb
            }
        },
        None => mb,
    };
    proof {
        assert(prod == frac.num * memtotal_mb) by (nonlinear_arith)
            requires
                prod == (frac.num as u128) * (memtotal_mb as u128),
        ;
        assert(mb == (frac.num * memtotal_mb) as int / frac.den as int);
    }
    if capped > 0xFFFF_FFFF_FFFF_FFFFu128 / 0x100000 {
        proof {
            assert(capped * 0x100000 > u64::MAX) by (nonlinear_arith)
                requires
                    capped > (u64::MAX as u128) / 0x100000,
            ;
        }
        u64::MAX
    } else {
        proof {
            assert(capped * 0x100000 <= u64::MAX) by (nonlinear_arith)
                requires
                    capped <= (u64::MAX as u128) / 0x100000,
            ;
        }
        (capped * 0x100000) as u64
    }
}

/// What a device is activated as: a swap device with a priority, or a
/// filesystem mounted at a path.  The two are mutually exclusive by
/// construction.
#[derive(Clone, Debug)]
pub enum DeviceKind {
    Swap { priority: i32 },
    Mount { path: String },
}

pub enum DeviceKindModel {
    Swap { priority: i32 },
    Mount { path: Seq<char> },
}

impl View for DeviceKind {
    type V = DeviceKindModel;

    open spec fn view(&self) -> DeviceKindModel {
        match self {
            DeviceKind::Swap { priority } => DeviceKindModel::Swap { priority: *priority },
            DeviceKind::Mount { path } => DeviceKindModel::Mount { path: path@ },
        }
    }
}

/// A fully-resolved device record.
#[derive(Clone, Debug)]
pub struct Device {
    pub name: String,
    pub host_memory_limit_mb: Option<u64>,
    pub zram_fraction: Fraction,
    pub max_zram_size_mb: Option<u64>,
    pub compression_algorithm: Option<String>,
    pub disksize: u64,
    pub kind: DeviceKind,
}

pub struct DeviceModel {
    pub name: Seq<char>,
    pub host_memory_limit_mb: Option<u64>,
    pub zram_fraction: Fraction,
    pub max_zram_size_mb: Option<u64>,
    pub compression_algorithm: Option<Seq<char>>,
    pub disksize: u64,
    pub kind: DeviceKindModel,
}

impl View for Device {
    type V = DeviceModel;

    open spec fn view(&self) -> DeviceModel {
        DeviceModel {
            name: self.name@,
            host_memory_limit_mb: self.host_memory_limit_mb,
            zram_fraction: self.zram_fraction,
            max_zram_size_mb: self.max_zram_size_mb,
            compression_algorithm: match self.compression_algorithm {
                Some(ref a) => Some(a@),
                None => None,
            },
            disksize: self.disksize,
            kind: self.kind@,
        }
    }
}

impl Device {
    /// A resolved device has a well-formed `zram<N>` name and an exact
    /// decimal fraction.
    pub open spec fn wf(self) -> bool {
        is_zram_name(self.name@) && self.zram_fraction.wf()
    }

    /// A fresh record for a declared device, with every key at its
    /// default: a two-gigabyte memory limit, a quarter of total memory,
    /// a four-gigabyte size cap, the kernel's default compressor, and
    /// activation as swap at the default priority.
    pub fn new(name: String) -> (d: Device)
        ensures
            d@.name == name@,
            d@.host_memory_limit_mb == Some(2048u64),
            d@.zram_fraction == (Fraction { num: 25, den: 100 }),
            d@.max_zram_size_mb == Some(4096u64),
            d@.compression_algorithm is None,
            d@.disksize == 0,
            d@.kind == (DeviceKindModel::Swap { priority: 100 }),
    {
        Device {
            name,
            host_memory_limit_mb: Some(2 * 1024),
            zram_fraction: Fraction { num: 25, den: 100 },
            max_zram_size_mb: Some(4 * 1024),
            compression_algorithm: None,
            disksize: 0,
            kind: DeviceKind::Swap { priority: 100 },
        }
    }

    /// Whether the device is activated as swap rather than as a mount.
    pub fn is_swap(&self) -> (r: bool)
        ensures
            r == (self@.kind is Swap),
    {
        match self.kind {
            DeviceKind::Swap { .. } => true,
            DeviceKind::Mount { .. } => false,
        }
    }
}

/// A fatal configuration or argument error.
#[derive(Clone, Debug)]
pub enum ConfigError {
    /// The configuration file is not well-formed INI text.
    Ini { message: String },
    /// A `zram`-prefixed section name is not a well-formed `zram<N>`
    /// device name.
    BadSectionName { section: String },
    /// A recognized key holds a value that does not parse as its type.
    BadValue { section: String, key: String, value: String },
    /// Total memory could not be determined.
    MemoryInfoUnavailable,
    /// A device name given on the command line is not `zram<N>`.
    BadDeviceName { name: String },
    /// A device name was expected on the command line but missing.
    MissingDeviceName,
    /// The argument list has an unsupported shape.
    BadArguments,
}

pub enum ConfigErrorModel {
    Ini { message: Seq<char> },
    BadSectionName { section: Seq<char> },
    BadValue { section: Seq<char>, key: Seq<char>, value: Seq<char> },
    MemoryInfoUnavailable,
    BadDeviceName { name: Seq<char> },
    MissingDeviceName,
    BadArguments,
}

impl View for ConfigError {
    type V = ConfigErrorModel;

    open spec fn view(&self) -> ConfigErrorModel {
        match self {
            ConfigError::Ini { message } => ConfigErrorModel::Ini { message: message@ },
            ConfigError::BadSectionName { section } => ConfigErrorModel::BadSectionName {
                section: section@,
            },
            ConfigError::BadValue { section, key, value } => ConfigErrorModel::BadValue {
                section: section@,
                key: key@,
                value: value@,
            },
            ConfigError::MemoryInfoUnavailable => ConfigErrorModel::MemoryInfoUnavailable,
            ConfigError::BadDeviceName { name } => ConfigErrorModel::BadDeviceName { name: name@ },
            ConfigError::MissingDeviceName => ConfigErrorModel::MissingDeviceName,
            ConfigError::BadArguments => ConfigErrorModel::BadArguments,
        }
    }
}

impl ConfigError {
    /// The error's user-visible description.
    pub open spec fn spec_message(e: ConfigErrorModel) -> Seq<char> {
        match e {
            ConfigErrorModel::Ini { message } => "Failed to parse configuration: "@ + message,
            ConfigErrorModel::BadSectionName { section } => "Section \""@ + section
                + "\" does not name a zram device"@,
            ConfigErrorModel::BadValue { section, key, value } => "Failed to parse "@ + key
                + " \""@ + value + "\" in section \""@ + section + "\""@,
            ConfigErrorModel::MemoryInfoUnavailable => "memory info unavailable"@,
            ConfigErrorModel::BadDeviceName { name } => "Device name \""@ + name
                + "\" must be zram followed by its index"@,
            ConfigErrorModel::MissingDeviceName => "--setup-device requires device argument"@,
            ConfigErrorModel::BadArguments => "This program requires 1 or 3 arguments"@,
        }
    }

    /// Renders the error for the user.
    pub fn message(&self) -> (r: String)
        ensures
            r@ == ConfigError::spec_message(self@),
    {
        match self {
            ConfigError::Ini { message } => {
                let mut s = String::from_str("Failed to parse configuration: ");
                s.append(message.as_str());
                s
            },
            ConfigError::BadSectionName { section } => {
                let mut s = String::from_str("Section \"");
                s.append(section.as_str());
                s.append("\" does not name a zram device");
                proof {
                    assert(s@ =~= ConfigError::spec_message(self@));
                }
                s
            },
            ConfigError::BadValue { section, key, value } => {
                let mut s = String::from_str("Failed to parse ");
                s.append(key.as_str());
                s.append(" \"");
                s.append(value.as_str());
                s.append("\" in section \"");
                s.append(section.as_str());
                s.append("\"");
                proof {
                    assert(s@ =~= ConfigError::spec_message(self@));
                }
                s
            },
            ConfigError::MemoryInfoUnavailable => String::from_str("memory info unavailable"),
            ConfigError::BadDeviceName { name } => {
                let mut s = String::from_str("Device name \"");
                s.append(name.as_str());
                s.append("\" must be zram followed by its index");
                proof {
                    assert(s@ =~= ConfigError::spec_message(self@));
                }
                s
            },
            ConfigError::MissingDeviceName => String::from_str(
                "--setup-device requires device argument",
            ),
            ConfigError::BadArguments => String::from_str("This program requires 1 or 3 arguments"),
        }
    }
}

/// A device is excluded from the resolved set iff a memory limit is
/// configured and the system's total memory strictly exceeds it.
pub open spec fn device_included(limit_mb: Option<u64>, memtotal_mb: u64) -> bool {
    match limit_mb {
        Some(l) => memtotal_mb <= l,
        None => true,
    }
}

/// Decides whether a device with the given memory limit is kept on a
/// system with `memtotal_mb` megabytes of memory.
pub fn include_device(limit_mb: &Option<u64>, memtotal_mb: u64) -> (r: bool)
    ensures
        r == device_included(*limit_mb, memtotal_mb),
{
    match limit_mb {
        Some(l) => memtotal_mb <= *l,
        None => true,
    }
}

/// A configured memory limit keeps a device exactly up to the limit:
/// a system with exactly that much memory keeps the device, and one
/// megabyte more drops it.
pub proof fn lemma_memory_limit_boundary(limit_mb: u64)
    requires
        limit_mb < u64::MAX,
    ensures
        device_included(Some(limit_mb), limit_mb),
        !device_included(Some(limit_mb), (limit_mb + 1) as u64),
{
}

/// A limit of `none` keeps the device no matter how much memory the
/// system has: the value parses to no limit at all, and no limit keeps
/// every device.
pub proof fn lemma_no_limit_unlimited(memtotal_mb: u64)
    ensures
        spec_parse_optional_size("none"@) == Some(Option::<u64>::None),
        device_included(None, memtotal_mb),
{
    reveal_strlit("none");
    assert("none"@ =~= seq!['n', 'o', 'n', 'e']);
}

/// One section of the configuration file, as the INI parser found it:
/// its name (the unnamed leading section has none) and its key/value
/// pairs in order.
pub struct IniSection {
    pub name: Option<String>,
    pub properties: Vec<(String, String)>,
}

/// The sections' view: names and key/value pairs as character
/// sequences.
pub open spec fn props_view(props: Seq<(String, String)>) -> Seq<(Seq<char>, Seq<char>)> {
    Seq::new(props.len(), |i: int| (props[i].0@, props[i].1@))
}

pub open spec fn opt_str_view(o: Option<String>) -> Option<Seq<char>> {
    match o {
        Some(s) => Some(s@),
        None => None,
    }
}

impl View for IniSection {
    type V = (Option<Seq<char>>, Seq<(Seq<char>, Seq<char>)>);

    open spec fn view(&self) -> (Option<Seq<char>>, Seq<(Seq<char>, Seq<char>)>) {
        (opt_str_view(self.name), props_view(self.properties@))
    }
}

/// The sections a well-formed INI document denotes, in order, or
/// nothing when the text is not well-formed INI.
pub uninterp spec fn ini_doc_of(s: Seq<char>) -> Option<
    Seq<(Option<Seq<char>>, Seq<(Seq<char>, Seq<char>)>)>,
>;

pub open spec fn sections_view(secs: Seq<IniSection>) -> Seq<
    (Option<Seq<char>>, Seq<(Seq<char>, Seq<char>)>),
> {
    Seq::new(secs.len(), |i: int| secs[i]@)
}

/// Relies on rust-ini's `Ini::load_from_str`: it parses INI text into
/// named sections of key/value pairs, kept in document order, or fails
/// on malformed text.  Which sections a given document denotes is
/// named by `ini_doc_of`.
#[verifier::external_body]
fn parse_ini_sections(content: &str) -> (r: Result<Vec<IniSection>, ConfigError>)
    ensures
        (r is Ok) == (ini_doc_of(content@) is Some),
        r matches Ok(secs) ==> ini_doc_of(content@) == Some(sections_view(secs@)),
        r matches Err(e) ==> e@ is Ini,
{
    match ini::Ini::load_from_str(content) {
        Ok(conf) => Ok(conf.iter().map(|(name, props)| IniSection {
            name: name.map(str::to_string),
            properties: props.iter().map(|(k, v)| (k.to_string(), v.to_string())).collect(),
        }).collect()),
        Err(e) => Err(ConfigError::Ini { message: e.to_string() }),
    }
}

/// The first value stored under a key, as the INI parser's lookup
/// returns it.
pub open spec fn spec_prop_get(props: Seq<(Seq<char>, Seq<char>)>, key: Seq<char>) -> Option<
    Seq<char>,
>
    decreases props.len(),
{
    if props.len() == 0 {
        None
    } else if props[0].0 == key {
        Some(props[0].1)
    } else {
        spec_prop_get(props.drop_first(), key)
    }
}

/// Looks up the first value stored under `key`.
pub fn prop_get<'a>(props: &'a Vec<(String, String)>, key: &str) -> (r: Option<&'a String>)
    ensures
        match r {
            Some(v) => spec_prop_get(props_view(props@), key@) == Some(v@),
            None => spec_prop_get(props_view(props@), key@) is None,
        },
{
    let ghost pv = props_view(props@);
    proof {
        assert(pv.skip(0) =~= pv);
    }
    let n = props.len();
    let mut i: usize = 0;
    while i < n
        invariant
            n == props@.len(),
            0 <= i <= n,
            pv == props_view(props@),
            spec_prop_get(pv, key@) == spec_prop_get(pv.skip(i as int), key@),
        decreases n - i,
    {
        proof {
            assert(pv.skip(i as int)[0] == pv[i as int]);
            assert(pv.skip(i as int).drop_first() =~= pv.skip(i + 1));
        }
        if str_eq(props[i].0.as_str(), key) {
            return Some(&props[i].1);
        }
        i += 1;
    }
    proof {
        assert(pv.skip(n as int) =~= Seq::<(Seq<char>, Seq<char>)>::empty());
    }
    None
}

/// The memory-limit key/value pair in effect: `host-memory-limit`
/// first, `memory-limit` as its alias.
pub open spec fn spec_limit_pair(props: Seq<(Seq<char>, Seq<char>)>) -> Option<
    (Seq<char>, Seq<char>),
> {
    match spec_prop_get(props, "host-memory-limit"@) {
        Some(v) => Some(("host-memory-limit"@, v)),
        None => match spec_prop_get(props, "memory-limit"@) {
            Some(v) => Some(("memory-limit"@, v)),
            None => None,
        },
    }
}

/// The configured memory limit, or the key and value that failed to
/// parse.
pub open spec fn spec_limit_result(props: Seq<(Seq<char>, Seq<char>)>) -> Result<
    Option<u64>,
    (Seq<char>, Seq<char>),
> {
    match spec_limit_pair(props) {
        None => Ok(Some(2048u64)),
        Some((k, v)) => match spec_parse_optional_size(v) {
            Some(l) => Ok(l),
            None => Err((k, v)),
        },
    }
}

/// The configured fraction of total memory, or the key and value that
/// failed to parse.
pub open spec fn spec_fraction_result(props: Seq<(Seq<char>, Seq<char>)>) -> Result<
    Fraction,
    (Seq<char>, Seq<char>),
> {
    match spec_prop_get(props, "zram-fraction"@) {
        None => Ok(Fraction { num: 25, den: 100 }),
        Some(v) => match spec_parse_fraction(v) {
            Some(f) => Ok(f),
            None => Err(("zram-fraction"@, v)),
        },
    }
}

/// The configured size cap, or the key and value that failed to parse.
pub open spec fn spec_max_size_result(props: Seq<(Seq<char>, Seq<char>)>) -> Result<
    Option<u64>,
    (Seq<char>, Seq<char>),
> {
    match spec_prop_get(props, "max-zram-size"@) {
        None => Ok(Some(4096u64)),
        Some(v) => match spec_parse_optional_size(v) {
            Some(m) => Ok(m),
            None => Err(("max-zram-size"@, v)),
        },
    }
}

/// What one configuration section resolves to: nothing for a section
/// without the `zram` prefix or for a device excluded by its memory
/// limit; a fatal error for a malformed name or value; otherwise the
/// fully-resolved device.
pub open spec fn spec_parse_device(
    section_name: Option<Seq<char>>,
    props: Seq<(Seq<char>, Seq<char>)>,
    memtotal_mb: u64,
) -> Result<Option<DeviceModel>, ConfigErrorModel> {
    match section_name {
        None => Ok(None),
        Some(sname) => {
            if !starts_with_zram(sname) {
                Ok(None)
            } else if !is_zram_name(sname) {
                Err(ConfigErrorModel::BadSectionName { section: sname })
            } else {
                match spec_limit_result(props) {
                    Err((k, v)) => Err(
                        ConfigErrorModel::BadValue { section: sname, key: k, value: v },
                    ),
                    Ok(limit) => match spec_fraction_result(props) {
                        Err((k, v)) => Err(
                            ConfigErrorModel::BadValue { section: sname, key: k, value: v },
                        ),
                        Ok(frac) => match spec_max_size_result(props) {
                            Err((k, v)) => Err(
                                ConfigErrorModel::BadValue { section: sname, key: k, value: v },
                            ),
                            Ok(max) => {
                                if !device_included(limit, memtotal_mb) {
                                    Ok(None)
                                } else {
                                    Ok(
                                        Some(
                                            DeviceModel {
                                                name: sname,
                                                host_memory_limit_mb: limit,
                                                zram_fraction: frac,
                                                max_zram_size_mb: max,
                                                compression_algorithm: spec_prop_get(
                                                    props,
                                                    "compression-algorithm"@,
                                                ),
                                                disksize: spec_disksize(
                                                    frac,
                                                    memtotal_mb,
                                                    max,
                                                ) as u64,
                                                kind: DeviceKindModel::Swap { priority: 100 },
                                            },
                                        ),
                                    )
                                }
                            },
                        },
                    },
                }
            }
        },
    }
}

pub open spec fn device_result_view(r: Result<Option<Device>, ConfigError>) -> Result<
    Option<DeviceModel>,
    ConfigErrorModel,
> {
    match r {
        Ok(None) => Ok(None),
        Ok(Some(d)) => Ok(Some(d@)),
        Err(e) => Err(e@),
    }
}

/// Resolves one configuration section against the system's total
/// memory.
pub fn parse_device(
    section_name: &Option<String>,
    properties: &Vec<(String, String)>,
    memtotal_mb: u64,
) -> (r: Result<Option<Device>, ConfigError>)
    ensures
        device_result_view(r) == spec_parse_device(
            opt_str_view(*section_name),
            props_view(properties@),
            memtotal_mb,
        ),
        r matches Ok(Some(d)) ==> d.wf() && d@.disksize == spec_disksize(
            d@.zram_fraction,
            memtotal_mb,
            d@.max_zram_size_mb,
        ),
{
    let name: &String = match section_name {
        Some(n) => n,
        None => {
            return Ok(None);
        },
    };
    if !has_zram_prefix(name.as_str()) {
        return Ok(None);
    }
    if device_index(name.as_str()).is_none() {
        return Err(ConfigError::BadSectionName { section: name.clone() });
    }
    let mut limit: Option<u64> = Some(2048);
    let limit_pair: Option<(&str, &String)> = match prop_get(properties, "host-memory-limit") {
        Some(v) => Some(("host-memory-limit", v)),
        None => match prop_get(properties, "memory-limit") {
            Some(v) => Some(("memory-limit", v)),
            None => None,
        },
    };
    match limit_pair {
        None => {},
        Some((k, v)) => match parse_optional_size(v.as_str()) {
            Some(l) => {
                limit = l;
            },
            None => {
                return Err(
                    ConfigError::BadValue {
                        section: name.clone(),
                        key: String::from_str(k),
                        value: v.clone(),
                    },
                );
            },
        },
    }
    let mut frac = Fraction { num: 25, den: 100 };
    proof {
        reveal_with_fuel(pow10, 3);
        assert(frac.den == pow10(2));
    }
    match prop_get(properties, "zram-fraction") {
        None => {},
        Some(v) => match parse_fraction(v.as_str()) {
            Some(f) => {
                frac = f;
            },
            None => {
                return Err(
                    ConfigError::BadValue {
                        section: name.clone(),
                        key: String::from_str("zram-fraction"),
                        value: v.clone(),
                    },
                );
            },
        },
    }
    let mut max: Option<u64> = Some(4096);
    match prop_get(properties, "max-zram-size") {
        None => {},
        Some(v) => match parse_optional_size(v.as_str()) {
            Some(m) => {
                max = m;
            },
            None => {
                return Err(
                    ConfigError::BadValue {
                        section: name.clone(),
                        key: String::from_str("max-zram-size"),
                        value: v.clone(),
                    },
                );
            },
        },
    }
    let compression_algorithm: Option<String> = match prop_get(
        properties,
        "compression-algorithm",
    ) {
        Some(v) => Some(v.clone()),
        None => None,
    };
    if !include_device(&limit, memtotal_mb) {
        return Ok(None);
    }
    let disksize = compute_disksize(&frac, memtotal_mb, &max);
    Ok(
        Some(
            Device {
                name: name.clone(),
                host_memory_limit_mb: limit,
                zram_fraction: frac,
                max_zram_size_mb: max,
                compression_algorithm,
                disksize,
                kind: DeviceKind::Swap { priority: 100 },
            },
        ),
    )
}

pub open spec fn devices_view(devs: Seq<Device>) -> Seq<DeviceModel> {
    Seq::new(devs.len(), |i: int| devs[i]@)
}

pub open spec fn devices_result_view(r: Result<Vec<Device>, ConfigError>) -> Result<
    Seq<DeviceModel>,
    ConfigErrorModel,
> {
    match r {
        Ok(devs) => Ok(devices_view(devs@)),
        Err(e) => Err(e@),
    }
}

/// What a whole configuration document resolves to: every section in
/// order, the first fatal error aborting the rest.
pub open spec fn spec_resolve(
    doc: Seq<(Option<Seq<char>>, Seq<(Seq<char>, Seq<char>)>)>,
    memtotal_mb: u64,
) -> Result<Seq<DeviceModel>, ConfigErrorModel>
    decreases doc.len(),
{
    if doc.len() == 0 {
        Ok(Seq::empty())
    } else {
        match spec_parse_device(doc[0].0, doc[0].1, memtotal_mb) {
            Err(e) => Err(e),
            Ok(head) => match spec_resolve(doc.drop_first(), memtotal_mb) {
                Err(e) => Err(e),
                Ok(rest) => Ok(
                    match head {
                        Some(d) => seq![d] + rest,
                        None => rest,
                    },
                ),
            },
        }
    }
}

/// Resolves every declared device against the system's total memory.
/// A missing configuration file (`None`) resolves to no devices.
pub fn read_all_devices(conf_text: Option<&str>, memtotal_mb: u64) -> (r: Result<
    Vec<Device>,
    ConfigError,
>)
    ensures
        conf_text is None ==> (r matches Ok(devs) && devs@.len() == 0),
        conf_text matches Some(c) ==> match ini_doc_of(c@) {
            None => r matches Err(e) && e@ is Ini,
            Some(doc) => devices_result_view(r) == spec_resolve(doc, memtotal_mb),
        },
        r matches Ok(devs) ==> forall|i: int| 0 <= i < devs@.len() ==> (#[trigger] devs@[i]).wf(),
{
    let content = match conf_text {
        None => {
            return Ok(Vec::new());
        },
        Some(c) => c,
    };
    let secs = match parse_ini_sections(content) {
        Err(e) => {
            return Err(e);
        },
        Ok(s) => s,
    };
    let ghost doc = sections_view(secs@);
    proof {
        assert(doc.skip(0) =~= doc);
    }
    let n = secs.len();
    let mut devs: Vec<Device> = Vec::new();
    let mut i: usize = 0;
    while i < n
        invariant
            n == secs@.len(),
            0 <= i <= n,
            conf_text == Some(content),
            doc == sections_view(secs@),
            ini_doc_of(content@) == Some(doc),
            spec_resolve(doc, memtotal_mb) == (match spec_resolve(doc.skip(i as int), memtotal_mb) {
                Ok(rest) => Ok::<Seq<DeviceModel>, ConfigErrorModel>(devices_view(devs@) + rest),
                Err(e) => Err::<Seq<DeviceModel>, ConfigErrorModel>(e),
            }),
            forall|j: int| 0 <= j < devs@.len() ==> (#[trigger] devs@[j]).wf(),
        decreases n - i,
    {
        proof {
            assert(doc.skip(i as int)[0] == doc[i as int]);
            assert(doc.skip(i as int).drop_first() =~= doc.skip(i + 1));
            assert(doc[i as int] == secs@[i as int]@);
        }
        let sec = &secs[i];
        let ghost head = spec_parse_device(doc[i as int].0, doc[i as int].1, memtotal_mb);
        match parse_device(&sec.name, &sec.properties, memtotal_mb) {
            Err(e) => {
                proof {
                    assert(head == Err::<Option<DeviceModel>, ConfigErrorModel>(e@));
                    assert(spec_resolve(doc.skip(i as int), memtotal_mb) == Err::<
                        Seq<DeviceModel>,
                        ConfigErrorModel,
                    >(e@));
                }
                return Err(e);
            },
            Ok(None) => {
                proof {
                    assert(head == Ok::<Option<DeviceModel>, ConfigErrorModel>(None));
                    assert(spec_resolve(doc.skip(i as int), memtotal_mb) == spec_resolve(
                        doc.skip(i + 1),
                        memtotal_mb,
                    ));
                }
            },
            Ok(Some(d)) => {
                let ghost prev = devices_view(devs@);
                devs.push(d);
                proof {
                    assert(head == Ok::<Option<DeviceModel>, ConfigErrorModel>(Some(d@)));
                    assert(devices_view(devs@) =~= prev + seq![d@]);
                    match spec_resolve(doc.skip(i + 1), memtotal_mb) {
                        Ok(rest) => {
                            assert(spec_resolve(doc.skip(i as int), memtotal_mb) == Ok::<
                                Seq<DeviceModel>,
                                ConfigErrorModel,
                            >(seq![d@] + rest));
                            assert((prev + seq![d@]) + rest =~= prev + (seq![d@] + rest));
                        },
                        Err(e) => {
                            assert(spec_resolve(doc.skip(i as int), memtotal_mb) == Err::<
                                Seq<DeviceModel>,
                                ConfigErrorModel,
                            >(e));
                        },
                    }
                }
            },
        }
        i += 1;
    }
    proof {
        assert(doc.skip(n as int) =~= Seq::<
            (Option<Seq<char>>, Seq<(Seq<char>, Seq<char>)>),
        >::empty());
        assert(devices_view(devs@) + Seq::<DeviceModel>::empty() =~= devices_view(devs@));
    }
    Ok(devs)
}

/// The first section carrying exactly the given name.
pub open spec fn spec_find_section(
    doc: Seq<(Option<Seq<char>>, Seq<(Seq<char>, Seq<char>)>)>,
    name: Seq<char>,
) -> Option<(Option<Seq<char>>, Seq<(Seq<char>, Seq<char>)>)>
    decreases doc.len(),
{
    if doc.len() == 0 {
        None
    } else if doc[0].0 == Some(name) {
        Some(doc[0])
    } else {
        spec_find_section(doc.drop_first(), name)
    }
}

/// Looks up one declared device by name and resolves it.  `Ok(None)`
/// when the name has no section or the device is excluded.
pub fn read_device(conf_text: Option<&str>, memtotal_mb: u64, name: &str) -> (r: Result<
    Option<Device>,
    ConfigError,
>)
    ensures
        conf_text is None ==> (r matches Ok(d) && d is None),
        conf_text matches Some(c) ==> match ini_doc_of(c@) {
            None => r matches Err(e) && e@ is Ini,
            Some(doc) => match spec_find_section(doc, name@) {
                None => r matches Ok(d) && d is None,
                Some(sec) => device_result_view(r) == spec_parse_device(
                    sec.0,
                    sec.1,
                    memtotal_mb,
                ),
            },
        },
{
    let content = match conf_text {
        None => {
            return Ok(None);
        },
        Some(c) => c,
    };
    let secs = match parse_ini_sections(content) {
        Err(e) => {
            return Err(e);
        },
        Ok(s) => s,
    };
    let ghost doc = sections_view(secs@);
    proof {
        assert(doc.skip(0) =~= doc);
    }
    let n = secs.len();
    let mut i: usize = 0;
    while i < n
        invariant
            n == secs@.len(),
            conf_text == Some(content),
            doc == sections_view(secs@),
            ini_doc_of(content@) == Some(doc),
            0 <= i <= n,
            spec_find_section(doc, name@) == spec_find_section(doc.skip(i as int), name@),
        decreases n - i,
    {
        proof {
            assert(doc.skip(i as int)[0] == doc[i as int]);
            assert(doc.skip(i as int).drop_first() =~= doc.skip(i + 1));
            assert(doc[i as int] == secs@[i as int]@);
        }
        let sec = &secs[i];
        let matches_name = match &sec.name {
            Some(sn) => str_eq(sn.as_str(), name),
            None => false,
        };
        if matches_name {
            proof {
                assert(doc[i as int].0 == Some(name@));
                assert(spec_find_section(doc.skip(i as int), name@) == Some(doc[i as int]));
            }
            return parse_device(&sec.name, &sec.properties, memtotal_mb);
        }
        proof {
            assert(doc[i as int].0 != Some(name@));
        }
        i += 1;
    }
    proof {
        assert(doc.skip(n as int) =~= Seq::<
            (Option<Seq<char>>, Seq<(Seq<char>, Seq<char>)>),
        >::empty());
    }
    Ok(None)
}

/// The memory total, in kilobytes, that a kernel memory report
/// denotes: on the first line whose leading field is `MemTotal:` and
/// which has a second field, the second field read as a number (the
/// inner `None` when it is not one); `None` when no line matches.
pub open spec fn spec_memtotal_lines(ls: Seq<Seq<char>>) -> Option<Option<u64>>
    decreases ls.len(),
{
    if ls.len() == 0 {
        None
    } else {
        let f = spec_fields(ls[0]);
        if f.len() >= 2 && f[0] == "MemTotal:"@ {
            Some(spec_parse_u64(f[1]))
        } else {
            spec_memtotal_lines(ls.drop_first())
        }
    }
}

pub open spec fn spec_memtotal_kb(s: Seq<char>) -> Option<Option<u64>> {
    spec_memtotal_lines(spec_lines(s))
}

/// Scans a kernel memory report for the `MemTotal:` field and reads
/// its value in kilobytes; any failure is the one fatal
/// memory-unavailable error.
pub fn get_total_memory_kb(content: &str) -> (r: Result<u64, ConfigError>)
    ensures
        r == (match spec_memtotal_kb(content@) {
            Some(Some(v)) => Ok::<u64, ConfigError>(v),
            _ => Err::<u64, ConfigError>(ConfigError::MemoryInfoUnavailable),
        }),
{
    let lines = crate::text::lines_of(content);
    let ghost lv = lines.deep_view();
    proof {
        assert(lv.skip(0) =~= lv);
    }
    let n = lines.len();
    let mut i: usize = 0;
    while i < n
        invariant
            n == lines@.len(),
            lv == lines.deep_view(),
            lv == spec_lines(content@),
            0 <= i <= n,
            spec_memtotal_lines(lv) == spec_memtotal_lines(lv.skip(i as int)),
        decreases n - i,
    {
        proof {
            assert(lv.skip(i as int)[0] == lv[i as int]);
            assert(lv.skip(i as int).drop_first() =~= lv.skip(i + 1));
            assert(lv[i as int] == lines@[i as int]@);
        }
        let fields = crate::text::fields_of(lines[i].as_str());
        proof {
            assert(fields.deep_view() == spec_fields(lines@[i as int]@));
            assert(fields@.len() == fields.deep_view().len());
        }
        if fields.len() >= 2 && str_eq(fields[0].as_str(), "MemTotal:") {
            proof {
                assert(fields.deep_view()[0] == fields@[0]@);
                assert(fields.deep_view()[1] == fields@[1]@);
            }
            return match parse_u64(fields[1].as_str()) {
                Some(v) => Ok(v),
                None => Err(ConfigError::MemoryInfoUnavailable),
            };
        }
        proof {
            if fields.deep_view().len() >= 2 {
                assert(fields.deep_view()[0] == fields@[0]@);
            }
        }
        i += 1;
    }
    proof {
        assert(lv.skip(n as int) =~= Seq::<Seq<char>>::empty());
    }
    Err(ConfigError::MemoryInfoUnavailable)
}

/// Converts a memory total in kilobytes to whole megabytes.
pub fn total_mb_from_kb(kb: u64) -> (r: u64)
    ensures
        r == kb / 1024,
{
    kb / 1024
}

/// The mode a single invocation runs in, as selected by the command
/// line.
#[derive(Clone, Debug)]
pub enum CliMode {
    Generate { output_directory: String },
    Setup { name: String },
    Reset { name: String },
}

pub enum CliModeModel {
    Generate { output_directory: Seq<char> },
    Setup { name: Seq<char> },
    Reset { name: Seq<char> },
}

impl View for CliMode {
    type V = CliModeModel;

    open spec fn view(&self) -> CliModeModel {
        match self {
            CliMode::Generate { output_directory } => CliModeModel::Generate {
                output_directory: output_directory@,
            },
            CliMode::Setup { name } => CliModeModel::Setup { name: name@ },
            CliMode::Reset { name } => CliModeModel::Reset { name: name@ },
        }
    }
}

pub open spec fn mode_result_view(r: Result<CliMode, ConfigError>) -> Result<
    CliModeModel,
    ConfigErrorModel,
> {
    match r {
        Ok(m) => Ok(m@),
        Err(e) => Err(e@),
    }
}

/// Which mode an argument list selects: `--setup-device <name>` or
/// `--reset-device <name>` with a well-formed `zram<N>` name, or an
/// output directory (alone, or with the two further directories the
/// calling convention passes).  A malformed device name fails here,
/// before anything is read or written.
pub open spec fn spec_select_mode(args: Seq<Seq<char>>) -> Result<CliModeModel, ConfigErrorModel> {
    if args.len() == 0 {
        Err(ConfigErrorModel::BadArguments)
    } else if args[0] == "--setup-device"@ {
        if args.len() < 2 {
            Err(ConfigErrorModel::MissingDeviceName)
        } else if is_zram_name(args[1]) {
            Ok(CliModeModel::Setup { name: args[1] })
        } else {
            Err(ConfigErrorModel::BadDeviceName { name: args[1] })
        }
    } else if args[0] == "--reset-device"@ {
        if args.len() < 2 {
            Err(ConfigErrorModel::MissingDeviceName)
        } else if is_zram_name(args[1]) {
            Ok(CliModeModel::Reset { name: args[1] })
        } else {
            Err(ConfigErrorModel::BadDeviceName { name: args[1] })
        }
    } else if args.len() == 1 || args.len() == 3 {
        Ok(CliModeModel::Generate { output_directory: args[0] })
    } else {
        Err(ConfigErrorModel::BadArguments)
    }
}

/// Selects the invocation mode from the command-line arguments (the
/// program name excluded).
pub fn select_mode(args: &Vec<String>) -> (r: Result<CliMode, ConfigError>)
    ensures
        mode_result_view(r) == spec_select_mode(args.deep_view()),
{
    if args.len() == 0 {
        return Err(ConfigError::BadArguments);
    }
    proof {
        assert(args.deep_view()[0] == args@[0]@);
        if args@.len() >= 2 {
            assert(args.deep_view()[1] == args@[1]@);
        }
    }
    if str_eq(args[0].as_str(), "--setup-device") {
        if args.len() < 2 {
            return Err(ConfigError::MissingDeviceName);
        }
        let name = &args[1];
        match device_index(name.as_str()) {
            Some(_) => Ok(CliMode::Setup { name: name.clone() }),
            None => Err(ConfigError::BadDeviceName { name: name.clone() }),
        }
    } else if str_eq(args[0].as_str(), "--reset-device") {
        if args.len() < 2 {
            return Err(ConfigError::MissingDeviceName);
        }
        let name = &args[1];
        match device_index(name.as_str()) {
            Some(_) => Ok(CliMode::Reset { name: name.clone() }),
            None => Err(ConfigError::BadDeviceName { name: name.clone() }),
        }
    } else if args.len() == 1 || args.len() == 3 {
        Ok(CliMode::Generate { output_directory: args[0].clone() })
    } else {
        Err(ConfigError::BadArguments)
    }
}

/// A single invocation's intent: generate descriptors for every
/// resolved device, set up one device, or tear one down.
pub enum ModuleConfig {
    Generator { devices: Vec<Device>, output_directory: String },
    DeviceSetup { device: Option<Device>, name: String },
    DeviceReset { name: String },
}

/// The resolved invocation: the root directory every kernel and
/// configuration path is taken under, and the selected intent.
pub struct Config {
    pub root: String,
    pub module: ModuleConfig,
}

/// Only `zram`-prefixed sections ever reach the resolved device list:
/// every resolved device's name is a well-formed `zram<N>` name,
/// whatever the sections held.
pub proof fn lemma_non_zram_sections_ignored(
    doc: Seq<(Option<Seq<char>>, Seq<(Seq<char>, Seq<char>)>)>,
    memtotal_mb: u64,
)
    requires
        spec_resolve(doc, memtotal_mb) is Ok,
    ensures
        forall|i: int|
            0 <= i < spec_resolve(doc, memtotal_mb)->Ok_0.len() ==> is_zram_name(
                (#[trigger] spec_resolve(doc, memtotal_mb)->Ok_0[i]).name,
            ) && starts_with_zram(spec_resolve(doc, memtotal_mb)->Ok_0[i].name),
    decreases doc.len(),
{
    if doc.len() > 0 {
        lemma_non_zram_sections_ignored(doc.drop_first(), memtotal_mb);
    }
}

} // verus!
