//! Process configuration: the recognized settings, their defaults, and
//! the decimal parsing that turns override strings into values.
//!
//! The library never reads the environment itself; the caller hands in
//! whatever override strings it found, and every missing or malformed
//! override falls back to the documented default.

use vstd::prelude::*;
use vstd::string::*;

verus! {

/// Whether `s` is one or more decimal digits and nothing else.
pub open spec fn is_digits(s: Seq<char>) -> bool {
    &&& s.len() > 0
    &&& forall|i: int| 0 <= i < s.len() ==> '0' <= #[trigger] s[i] <= '9'
}

/// The value of a digit string read in base ten.
pub open spec fn dec_value(s: Seq<char>) -> int
    decreases s.len(),
{
    if s.len() == 0 {
        0
    } else {
        dec_value(s.drop_last()) * 10 + (s.last() as int - '0' as int)
    }
}

/// A digit string's value is non-negative and never shrinks as digits
/// are appended.
proof fn lemma_dec_value_grows(s: Seq<char>, i: int)
    requires
        0 <= i <= s.len(),
        forall|k: int| 0 <= k < s.len() ==> '0' <= #[trigger] s[k] <= '9',
    ensures
        0 <= dec_value(s.subrange(0, i)),
        dec_value(s.subrange(0, i)) <= dec_value(s),
    decreases s.len() - i,
{
    if i < s.len() {
        let sub = s.subrange(0, i);
        let sub1 = s.subrange(0, i + 1);
        assert(sub1.drop_last() =~= sub);
        assert(sub1.last() == s[i]);
        lemma_dec_value_grows(s, i + 1);
        lemma_dec_value_nonneg(sub);
    } else {
        assert(s.subrange(0, i) =~= s);
        lemma_dec_value_nonneg(s);
    }
}

/// A digit string's value is non-negative.
proof fn lemma_dec_value_nonneg(s: Seq<char>)
    requires
        forall|k: int| 0 <= k < s.len() ==> '0' <= #[trigger] s[k] <= '9',
    ensures
        dec_value(s) >= 0,
    decreases s.len(),
{
    if s.len() > 0 {
        assert(forall|k: int|
            0 <= k < s.drop_last().len() ==> '0' <= #[trigger] s.drop_last()[k] <= '9');
        lemma_dec_value_nonneg(s.drop_last());
    }
}

/// Reads a base-ten number: the whole string must be digits and the
/// value must fit in a `u64`.
pub fn parse_u64(s: &str) -> (r: Option<u64>)
    ensures
        match r {
            Some(v) => is_digits(s@) && v as int == dec_value(s@),
            None => !is_digits(s@) || dec_value(s@) > u64::MAX,
        },
{
    let len = s.unicode_len();
    if len == 0 {
        return None;
    }
    let mut acc: u64 = 0;
    let mut i: usize = 0;
    while i < len
        invariant
            0 < len == s@.len(),
            i <= len,
            forall|k: int| 0 <= k < i ==> '0' <= #[trigger] s@[k] <= '9',
            acc as int == dec_value(s@.subrange(0, i as int)),
        decreases len - i,
    {
        let c = s.get_char(i);
        if c < '0' || c > '9' {
            return None;
        }
        let d: u64 = (c as u32 as u64) - ('0' as u32 as u64);
        proof {
            assert(s@.subrange(0, i as int + 1).drop_last() =~= s@.subrange(0, i as int));
            assert(s@.subrange(0, i as int + 1).last() == s@[i as int]);
        }
        if acc > (u64::MAX - d) / 10 {
            proof {
                assert(dec_value(s@.subrange(0, i as int + 1)) > u64::MAX);
                if is_digits(s@) {
                    lemma_dec_value_grows(s@, i as int + 1);
                }
            }
            return None;
        }
        acc = acc * 10 + d;
        i = i + 1;
    }
    proof {
        assert(s@.subrange(0, len as int) =~= s@);
    }
    Some(acc)
}

/// Reads a base-ten number that must fit in a `u16`.
pub fn parse_u16(s: &str) -> (r: Option<u16>)
    ensures
        match r {
            Some(v) => is_digits(s@) && v as int == dec_value(s@),
            None => !is_digits(s@) || dec_value(s@) > u16::MAX,
        },
{
    match parse_u64(s) {
        Some(v) => if v <= u16::MAX as u64 {
            Some(v as u16)
        } else {
            None
        },
        None => None,
    }
}

/// Reads a base-ten number that must fit in a `u32`.
pub fn parse_u32(s: &str) -> (r: Option<u32>)
    ensures
        match r {
            Some(v) => is_digits(s@) && v as int == dec_value(s@),
            None => !is_digits(s@) || dec_value(s@) > u32::MAX,
        },
{
    match parse_u64(s) {
        Some(v) => if v <= u32::MAX as u64 {
            Some(v as u32)
        } else {
            None
        },
        None => None,
    }
}

/// The recognized settings of one node process.
#[derive(Debug)]
pub struct NodeConfig {
    /// Host name of the message bus.
    pub mqtt_host: String,
    /// Port of the message bus.
    pub mqtt_port: u16,
    /// The capacity this node declares for itself.
    pub node_capacity: u32,
}

impl NodeConfig {
    /// The settings read from optional override strings: a missing or
    /// malformed override falls back to the default — host `localhost`,
    /// port 1883, capacity 100.
    pub fn from_overrides(
        host: Option<String>,
        port: Option<String>,
        capacity: Option<String>,
    ) -> (c: NodeConfig)
        ensures
            (match host {
                Some(h) => c.mqtt_host@ == h@,
                None => c.mqtt_host@ == "localhost"@,
            }),
            c.mqtt_port as int == (match port {
                Some(p) => if is_digits(p@) && dec_value(p@) <= u16::MAX {
                    dec_value(p@)
                } else {
                    1883
                },
                None => 1883,
            }),
            c.node_capacity as int == (match capacity {
                Some(p) => if is_digits(p@) && dec_value(p@) <= u32::MAX {
                    dec_value(p@)
                } else {
                    100
                },
                None => 100,
            }),
    {
        let mqtt_host = match host {
            Some(h) => h,
            None => String::from_str("localhost"),
        };
        let mqtt_port = match &port {
            Some(p) => match parse_u16(p.as_str()) {
                Some(v) => v,
                None => 1883,
            },
            None => 1883,
        };
        let node_capacity = match &capacity {
            Some(p) => match parse_u32(p.as_str()) {
                Some(v) => v,
                None => 100,
            },
            None => 100,
        };
        NodeConfig { mqtt_host, mqtt_port, node_capacity }
    }
}

} // verus!
