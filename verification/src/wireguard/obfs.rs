//! Obfuscation parameters of the WireGuard transport.
//!
//! Both ends must use the same parameters, so every value that the configuration can hold is
//! brought into range in a deterministic way.
use vstd::prelude::*;

verus! {

/// Wire size of a handshake initiation without padding.
pub const WG_HANDSHAKE_INIT_SIZE: usize = 148;

/// Wire size of a handshake response without padding.
pub const WG_HANDSHAKE_RESPONSE_SIZE: usize = 92;

/// Wire size of a cookie reply without padding.
pub const WG_COOKIE_REPLY_SIZE: usize = 64;

/// Upper bound of the paddings `s1`, `s2` and `s3`.
pub const WG_OBFS_S1_TO_S3_MAX: u8 = 64;

/// Upper bound of the padding `s4`.
pub const WG_OBFS_S4_MAX: u8 = 32;

/// Upper bound of the number of junk packets.
pub const WG_OBFS_JC_MAX: u8 = 10;

/// Shortest junk packet.
pub const WG_OBFS_JUNK_MIN: u16 = 64;

/// Longest junk packet.
pub const WG_OBFS_JUNK_MAX: u16 = 1024;

/// The part of an instance's flags that concerns the obfuscation.
#[derive(Clone, Copy, Debug, PartialEq, Eq, Structural)]
pub struct Flags {
    pub wg_obfs: Option<bool>,
    pub wg_obfs_s1: Option<u32>,
    pub wg_obfs_s2: Option<u32>,
    pub wg_obfs_s3: Option<u32>,
    pub wg_obfs_s4: Option<u32>,
    pub wg_obfs_jc: Option<u32>,
    pub wg_obfs_jmin: Option<u32>,
    pub wg_obfs_jmax: Option<u32>,
}

/// The flags of an instance that configures nothing.
pub fn gen_default_flags() -> (flags: Flags)
    ensures
        flags.wg_obfs is None,
        flags.wg_obfs_s1 is None,
        flags.wg_obfs_s2 is None,
        flags.wg_obfs_s3 is None,
        flags.wg_obfs_s4 is None,
        flags.wg_obfs_jc is None,
        flags.wg_obfs_jmin is None,
        flags.wg_obfs_jmax is None,
{
    Flags {
        wg_obfs: None,
        wg_obfs_s1: None,
        wg_obfs_s2: None,
        wg_obfs_s3: None,
        wg_obfs_s4: None,
        wg_obfs_jc: None,
        wg_obfs_jmin: None,
        wg_obfs_jmax: None,
    }
}

/// Obfuscation parameters of one tunnel.
#[derive(Clone, Copy, Debug, PartialEq, Eq, Structural)]
pub struct WgObfsConfig {
    /// Random bytes in front of a handshake initiation.
    pub s1: u8,
    /// Random bytes in front of a handshake response.
    pub s2: u8,
    /// Random bytes in front of a cookie reply.
    pub s3: u8,
    /// Random bytes behind a data packet.
    pub s4: u8,
    /// Junk packets sent before the handshake.
    pub jc: u8,
    /// Shortest junk packet.
    pub jmin: u16,
    /// Longest junk packet.
    pub jmax: u16,
}

/// What a padding option or a junk count becomes: the default where it is absent, otherwise the
/// value cut at `max`.
pub open spec fn clamped_u8(value: Option<u32>, max: u8, default: u8) -> u8 {
    match value {
        None => default,
        Some(v) => if v > max {
            max
        } else {
            v as u8
        },
    }
}

/// What a junk length option becomes: the default where it is absent, otherwise the value moved
/// into the range of the junk lengths.
pub open spec fn clamped_junk(value: Option<u32>, default: u16) -> u16 {
    match value {
        None => default,
        Some(v) => if v < WG_OBFS_JUNK_MIN {
            WG_OBFS_JUNK_MIN
        } else if v > WG_OBFS_JUNK_MAX {
            WG_OBFS_JUNK_MAX
        } else {
            v as u16
        },
    }
}

/// Whether a handshake message keeps out of the junk lengths `jmin..=jmax` once it is padded.
pub open spec fn junk_apart(s1: u8, s2: u8, s3: u8, jmin: u16, jmax: u16) -> bool {
    &&& !(jmin <= WG_HANDSHAKE_INIT_SIZE + s1 <= jmax)
    &&& !(jmin <= WG_HANDSHAKE_RESPONSE_SIZE + s2 <= jmax)
    &&& !(jmin <= WG_COOKIE_REPLY_SIZE + s3 <= jmax)
}

/// The parameters that `flags` asks for; none where the obfuscation is not switched on.
pub open spec fn obfs_of_flags(flags: Flags) -> Option<WgObfsConfig> {
    if flags.wg_obfs != Some(true) {
        None
    } else {
        let d = WgObfsConfig::spec_builtin_default();
        let s1 = clamped_u8(flags.wg_obfs_s1, WG_OBFS_S1_TO_S3_MAX, d.s1);
        let s2 = clamped_u8(flags.wg_obfs_s2, WG_OBFS_S1_TO_S3_MAX, d.s2);
        let s3 = clamped_u8(flags.wg_obfs_s3, WG_OBFS_S1_TO_S3_MAX, d.s3);
        let jmin = clamped_junk(flags.wg_obfs_jmin, d.jmin);
        let jmax0 = clamped_junk(flags.wg_obfs_jmax, d.jmax);
        let jmax = if jmin > jmax0 {
            jmin
        } else {
            jmax0
        };
        Some(
            WgObfsConfig {
                s1,
                s2,
                s3,
                s4: clamped_u8(flags.wg_obfs_s4, WG_OBFS_S4_MAX, d.s4),
                jc: if junk_apart(s1, s2, s3, jmin, jmax) {
                    clamped_u8(flags.wg_obfs_jc, WG_OBFS_JC_MAX, d.jc)
                } else {
                    0
                },
                jmin,
                jmax,
            },
        )
    }
}

impl WgObfsConfig {
    /// The parameters used where the flags name none.
    pub open spec fn spec_builtin_default() -> WgObfsConfig {
        WgObfsConfig { s1: 37, s2: 42, s3: 19, s4: 11, jc: 4, jmin: 200, jmax: 260 }
    }

    /// The parameters used where the flags name none.
    #[verifier::when_used_as_spec(spec_builtin_default)]
    pub fn builtin_default() -> (cfg: WgObfsConfig)
        ensures
            cfg == WgObfsConfig::spec_builtin_default(),
    {
        WgObfsConfig { s1: 37, s2: 42, s3: 19, s4: 11, jc: 4, jmin: 200, jmax: 260 }
    }

    /// The parameters are in range, and junk is sent only where no padded handshake message can
    /// have the length of a junk packet.
    pub open spec fn valid(self) -> bool {
        &&& self.s1 <= WG_OBFS_S1_TO_S3_MAX
        &&& self.s2 <= WG_OBFS_S1_TO_S3_MAX
        &&& self.s3 <= WG_OBFS_S1_TO_S3_MAX
        &&& self.s4 <= WG_OBFS_S4_MAX
        &&& self.jc <= WG_OBFS_JC_MAX
        &&& WG_OBFS_JUNK_MIN <= self.jmin <= self.jmax <= WG_OBFS_JUNK_MAX
        &&& self.jc > 0 ==> junk_apart(self.s1, self.s2, self.s3, self.jmin, self.jmax)
    }

    /// Reads the parameters from an instance's flags.
    pub fn from_flags(flags: &Flags) -> (res: Option<WgObfsConfig>)
        ensures
            res == obfs_of_flags(*flags),
            res matches Some(cfg) ==> cfg.valid(),
    {
        match flags.wg_obfs {
            Some(true) => {},
            _ => {
                return None;
            },
        }
        let default = Self::builtin_default();
        let s1 = clamp_obfs_u8(flags.wg_obfs_s1, WG_OBFS_S1_TO_S3_MAX, default.s1);
        let s2 = clamp_obfs_u8(flags.wg_obfs_s2, WG_OBFS_S1_TO_S3_MAX, default.s2);
        let s3 = clamp_obfs_u8(flags.wg_obfs_s3, WG_OBFS_S1_TO_S3_MAX, default.s3);
        let s4 = clamp_obfs_u8(flags.wg_obfs_s4, WG_OBFS_S4_MAX, default.s4);
        let mut jc = clamp_obfs_u8(flags.wg_obfs_jc, WG_OBFS_JC_MAX, default.jc);
        let jmin = clamp_obfs_junk(flags.wg_obfs_jmin, default.jmin);
        let mut jmax = clamp_obfs_junk(flags.wg_obfs_jmax, default.jmax);
        if jmin > jmax {
            jmax = jmin;
        }
        let init: usize = WG_HANDSHAKE_INIT_SIZE + s1 as usize;
        let response: usize = WG_HANDSHAKE_RESPONSE_SIZE + s2 as usize;
        let cookie: usize = WG_COOKIE_REPLY_SIZE + s3 as usize;
        if in_junk_range(init, jmin, jmax) || in_junk_range(response, jmin, jmax)
            || in_junk_range(cookie, jmin, jmax) {
            jc = 0;
        }
        Some(WgObfsConfig { s1, s2, s3, s4, jc, jmin, jmax })
    }

    /// Whether junk packets precede the handshake.
    pub fn junk_enabled(&self) -> (res: bool)
        ensures
            res == (self.jc > 0),
    {
        self.jc > 0
    }
}

/// Whether a packet of `len` bytes has the length of a junk packet.
pub fn in_junk_range(len: usize, jmin: u16, jmax: u16) -> (res: bool)
    ensures
        res == (jmin <= len <= jmax),
{
    jmin as usize <= len && len <= jmax as usize
}

/// Brings a padding option or a junk count into range.
pub fn clamp_obfs_u8(value: Option<u32>, max: u8, default: u8) -> (res: u8)
    ensures
        res == clamped_u8(value, max, default),
{
    match value {
        None => default,
        Some(v) => if v > max as u32 {
            max
        } else {
            v as u8
        },
    }
}

/// Brings a junk length option into range.
pub fn clamp_obfs_junk(value: Option<u32>, default: u16) -> (res: u16)
    ensures
        res == clamped_junk(value, default),
{
    match value {
        None => default,
        Some(v) => if v < WG_OBFS_JUNK_MIN as u32 {
            WG_OBFS_JUNK_MIN
        } else if v > WG_OBFS_JUNK_MAX as u32 {
            WG_OBFS_JUNK_MAX
        } else {
            v as u16
        },
    }
}

/// The built-in parameters are what an instance gets that only switches the obfuscation on, and
/// they send junk.
pub proof fn builtin_default_is_what_bare_flags_give(flags: Flags)
    requires
        flags.wg_obfs == Some(true),
        flags.wg_obfs_s1 is None,
        flags.wg_obfs_s2 is None,
        flags.wg_obfs_s3 is None,
        flags.wg_obfs_s4 is None,
        flags.wg_obfs_jc is None,
        flags.wg_obfs_jmin is None,
        flags.wg_obfs_jmax is None,
    ensures
        obfs_of_flags(flags) == Some(WgObfsConfig::spec_builtin_default()),
        WgObfsConfig::spec_builtin_default().valid(),
        WgObfsConfig::spec_builtin_default().jc > 0,
{
}

/// The obfuscation is on exactly where the flags switch it on.
pub proof fn the_obfuscation_has_to_be_switched_on(flags: Flags)
    ensures
        obfs_of_flags(flags) is Some <==> (flags.wg_obfs matches Some(on) && on),
{
}

/// The paddings are what the flags say, as far as 64 bytes for the handshake messages and 32 for a
/// data packet; 37, 42, 19 and 11 where the flags say nothing.
pub proof fn paddings_are_what_the_flags_say(flags: Flags, cfg: WgObfsConfig)
    requires
        obfs_of_flags(flags) == Some(cfg),
    ensures
        flags.wg_obfs_s1 is None ==> cfg.s1 == 37,
        flags.wg_obfs_s1 matches Some(v) ==> cfg.s1 <= 64 && cfg.s1 <= v && (cfg.s1 == v || cfg.s1
            == 64),
        flags.wg_obfs_s2 is None ==> cfg.s2 == 42,
        flags.wg_obfs_s2 matches Some(v) ==> cfg.s2 <= 64 && cfg.s2 <= v && (cfg.s2 == v || cfg.s2
            == 64),
        flags.wg_obfs_s3 is None ==> cfg.s3 == 19,
        flags.wg_obfs_s3 matches Some(v) ==> cfg.s3 <= 64 && cfg.s3 <= v && (cfg.s3 == v || cfg.s3
            == 64),
        flags.wg_obfs_s4 is None ==> cfg.s4 == 11,
        flags.wg_obfs_s4 matches Some(v) ==> cfg.s4 <= 32 && cfg.s4 <= v && (cfg.s4 == v || cfg.s4
            == 32),
{
}

/// The lengths of the junk are what the flags say, moved into 64 to 1024 bytes, and the longest is
/// never below the shortest; 200 and 260 where the flags say nothing.
pub proof fn junk_lengths_are_what_the_flags_say(flags: Flags, cfg: WgObfsConfig)
    requires
        obfs_of_flags(flags) == Some(cfg),
    ensures
        64 <= cfg.jmin <= cfg.jmax <= 1024,
        flags.wg_obfs_jmin is None ==> cfg.jmin == 200,
        flags.wg_obfs_jmin matches Some(v) ==> (64 <= v <= 1024 ==> cfg.jmin == v) && (v < 64
            ==> cfg.jmin == 64) && (v > 1024 ==> cfg.jmin == 1024),
        flags.wg_obfs_jmax is None && cfg.jmin <= 260 ==> cfg.jmax == 260,
        flags.wg_obfs_jmax is None && cfg.jmin > 260 ==> cfg.jmax == cfg.jmin,
        flags.wg_obfs_jmax matches Some(v) ==> (cfg.jmin <= v <= 1024 ==> cfg.jmax == v) && (v
            < cfg.jmin ==> cfg.jmax == cfg.jmin) && (v > 1024 ==> cfg.jmax == 1024),
{
}

/// As many junk packets are sent as the flags say, up to ten, and four where they say nothing; but
/// none where a padded handshake message of 148, 92 or 64 bytes would have the length of one.
pub proof fn junk_is_sent_where_it_can_be_told_apart(flags: Flags, cfg: WgObfsConfig)
    requires
        obfs_of_flags(flags) == Some(cfg),
    ensures
        cfg.jmin <= 148 + cfg.s1 <= cfg.jmax || cfg.jmin <= 92 + cfg.s2 <= cfg.jmax || cfg.jmin
            <= 64 + cfg.s3 <= cfg.jmax ==> cfg.jc == 0,
        !(cfg.jmin <= 148 + cfg.s1 <= cfg.jmax) && !(cfg.jmin <= 92 + cfg.s2 <= cfg.jmax) && !(
        cfg.jmin <= 64 + cfg.s3 <= cfg.jmax) ==> {
            &&& flags.wg_obfs_jc is None ==> cfg.jc == 4
            &&& flags.wg_obfs_jc matches Some(v) ==> (v <= 10 ==> cfg.jc == v) && (v > 10
                ==> cfg.jc == 10)
        },
{
}

/// An option is never raised, is cut only where it is over its limit, and is the default exactly
/// where it is absent.
pub proof fn clamping_keeps_what_is_in_range(v: u32, max: u8, default: u8, junk_default: u16)
    ensures
        clamped_u8(None, max, default) == default,
        v <= max ==> clamped_u8(Some(v), max, default) == v,
        v > max ==> clamped_u8(Some(v), max, default) == max,
        clamped_junk(None, junk_default) == junk_default,
        64 <= v <= 1024 ==> clamped_junk(Some(v), junk_default) == v,
        v < 64 ==> clamped_junk(Some(v), junk_default) == 64,
        v > 1024 ==> clamped_junk(Some(v), junk_default) == 1024,
{
}

/// The sizes of the handshake messages, and how far the options go.
pub proof fn sizes_and_limits_of_the_obfuscation()
    ensures
        WG_HANDSHAKE_INIT_SIZE == 148,
        WG_HANDSHAKE_RESPONSE_SIZE == 92,
        WG_COOKIE_REPLY_SIZE == 64,
        WG_OBFS_S1_TO_S3_MAX == 64,
        WG_OBFS_S4_MAX == 32,
        WG_OBFS_JC_MAX == 10,
        WG_OBFS_JUNK_MIN == 64,
        WG_OBFS_JUNK_MAX == 1024,
{
}

/// Parameters are valid within the limits, and where no padded handshake message has the length of a
/// junk packet, or no junk is sent.
pub proof fn which_parameters_are_valid(cfg: WgObfsConfig)
    ensures
        cfg.valid() <==> cfg.s1 <= 64 && cfg.s2 <= 64 && cfg.s3 <= 64 && cfg.s4 <= 32 && cfg.jc <= 10
            && 64 <= cfg.jmin <= cfg.jmax <= 1024 && (cfg.jc == 0 || !(cfg.jmin <= 148 + cfg.s1
            <= cfg.jmax) && !(cfg.jmin <= 92 + cfg.s2 <= cfg.jmax) && !(cfg.jmin <= 64 + cfg.s3
            <= cfg.jmax)),
{
}

/// Junk is sent where a number of junk packets is set, and a length is that of one where it lies in
/// their range.
pub proof fn when_junk_is_sent(
    cfg: WgObfsConfig,
    enabled: bool,
    len: usize,
    jmin: u16,
    jmax: u16,
    in_range: bool,
)
    requires
        call_ensures(WgObfsConfig::junk_enabled, (&cfg,), enabled),
        call_ensures(in_junk_range, (len, jmin, jmax), in_range),
    ensures
        enabled <==> cfg.jc >= 1,
        in_range <==> jmin <= len && len <= jmax,
{
}

} // verus!
