//! Deriving the reported metrics from raw cgroup v2 accounting text.
//!
//! Every function here computes over file contents handed in as byte strings;
//! reading the files (and deciding which reads are allowed to fail) is the
//! caller's side of the bargain, except that the error policy on *content* is
//! fixed here: a malformed mandatory number aborts a sample, a malformed
//! optional field degrades to zero.

use vstd::prelude::*;
use vstd::std_specs::vec::vec_index_mut;
use vstd::slice::slice_to_vec;

use crate::cgroup::CgroupManager;
use crate::cgroup::cgroup_root_path;
use crate::scan::bytes_eq;
use crate::scan::clamp_u64;
use crate::scan::lemma_deep_view_index;
use crate::scan::lines_spec;
use crate::scan::parse_u64;
use crate::scan::parse_u64_spec;
use crate::scan::split_lines;
use crate::scan::split_ws;
use crate::scan::starts_with;
use crate::scan::tokens_spec;
use crate::scan::trim;
use crate::scan::trim_spec;

verus! {

/// The bytes of "usage_usec " (trailing space included, as the line prefix).
pub open spec fn usage_key() -> Seq<u8> {
    seq![0x75u8, 0x73, 0x61, 0x67, 0x65, 0x5f, 0x75, 0x73, 0x65, 0x63, 0x20]
}

/// The bytes of "system_usec " (trailing space included, as the line prefix).
pub open spec fn system_key() -> Seq<u8> {
    seq![0x73u8, 0x79, 0x73, 0x74, 0x65, 0x6d, 0x5f, 0x75, 0x73, 0x65, 0x63, 0x20]
}

/// The bytes of "max", the token meaning an unlimited memory ceiling.
pub open spec fn max_token() -> Seq<u8> {
    seq![0x6du8, 0x61, 0x78]
}

/// The bytes of "MemTotal:".
pub open spec fn memtotal_key() -> Seq<u8> {
    seq![0x4du8, 0x65, 0x6d, 0x54, 0x6f, 0x74, 0x61, 0x6c, 0x3a]
}

/// The bytes of "rbytes=".
pub open spec fn rbytes_key() -> Seq<u8> {
    seq![0x72u8, 0x62, 0x79, 0x74, 0x65, 0x73, 0x3d]
}

/// The bytes of "wbytes=".
pub open spec fn wbytes_key() -> Seq<u8> {
    seq![0x77u8, 0x62, 0x79, 0x74, 0x65, 0x73, 0x3d]
}

pub open spec fn starts_with_spec(s: Seq<u8>, p: Seq<u8>) -> bool {
    s.len() >= p.len() && s.subrange(0, p.len() as int) == p
}

/// The number in a line's second whitespace-separated token, zero when the
/// token is absent or not a number.
pub open spec fn line_field_value(line: Seq<u8>) -> u64 {
    let toks = tokens_spec(line);
    if toks.len() >= 2 {
        match parse_u64_spec(toks[1]) {
            Some(v) => v,
            None => 0,
        }
    } else {
        0
    }
}

/// The value reported for a key over a whole stat text: the value of the last
/// line starting with the key (a later line overwrites an earlier one), zero
/// when no line starts with it.
pub open spec fn stat_field(lines: Seq<Seq<u8>>, key: Seq<u8>) -> u64
    decreases lines.len(),
{
    if lines.len() == 0 {
        0
    } else if starts_with_spec(lines.last(), key) {
        line_field_value(lines.last())
    } else {
        stat_field(lines.drop_last(), key)
    }
}

/// The cumulative "usage_usec" counter read from a cpu.stat text.
pub open spec fn cpu_usage_of(content: Seq<u8>) -> u64 {
    stat_field(lines_spec(content), usage_key())
}

/// The cumulative "system_usec" counter read from a cpu.stat text.
pub open spec fn cpu_system_of(content: Seq<u8>) -> u64 {
    stat_field(lines_spec(content), system_key())
}

pub open spec fn opt_bytes(o: Option<&[u8]>) -> Option<Seq<u8>> {
    match o {
        Some(s) => Some(s@),
        None => None,
    }
}

fn make_usage_key() -> (r: Vec<u8>)
    ensures
        r@ == usage_key(),
{
    let mut v: Vec<u8> = Vec::new();
    v.push(0x75);  // u
    v.push(0x73);  // s
    v.push(0x61);  // a
    v.push(0x67);  // g
    v.push(0x65);  // e
    v.push(0x5f);  // _
    v.push(0x75);  // u
    v.push(0x73);  // s
    v.push(0x65);  // e
    v.push(0x63);  // c
    v.push(0x20);  // space
    proof {
        assert(v@ =~= usage_key());
    }
    v
}

fn make_system_key() -> (r: Vec<u8>)
    ensures
        r@ == system_key(),
{
    let mut v: Vec<u8> = Vec::new();
    v.push(0x73);  // s
    v.push(0x79);  // y
    v.push(0x73);  // s
    v.push(0x74);  // t
    v.push(0x65);  // e
    v.push(0x6d);  // m
    v.push(0x5f);  // _
    v.push(0x75);  // u
    v.push(0x73);  // s
    v.push(0x65);  // e
    v.push(0x63);  // c
    v.push(0x20);  // space
    proof {
        assert(v@ =~= system_key());
    }
    v
}

fn make_max_token() -> (r: Vec<u8>)
    ensures
        r@ == max_token(),
{
    let mut v: Vec<u8> = Vec::new();
    v.push(0x6d);  // m
    v.push(0x61);  // a
    v.push(0x78);  // x
    proof {
        assert(v@ =~= max_token());
    }
    v
}

fn make_memtotal_key() -> (r: Vec<u8>)
    ensures
        r@ == memtotal_key(),
{
    let mut v: Vec<u8> = Vec::new();
    v.push(0x4d);  // M
    v.push(0x65);  // e
    v.push(0x6d);  // m
    v.push(0x54);  // T
    v.push(0x6f);  // o
    v.push(0x74);  // t
    v.push(0x61);  // a
    v.push(0x6c);  // l
    v.push(0x3a);  // :
    proof {
        assert(v@ =~= memtotal_key());
    }
    v
}

fn make_rbytes_key() -> (r: Vec<u8>)
    ensures
        r@ == rbytes_key(),
{
    let mut v: Vec<u8> = Vec::new();
    v.push(0x72);  // r
    v.push(0x62);  // b
    v.push(0x79);  // y
    v.push(0x74);  // t
    v.push(0x65);  // e
    v.push(0x73);  // s
    v.push(0x3d);  // =
    proof {
        assert(v@ =~= rbytes_key());
    }
    v
}

fn make_wbytes_key() -> (r: Vec<u8>)
    ensures
        r@ == wbytes_key(),
{
    let mut v: Vec<u8> = Vec::new();
    v.push(0x77);  // w
    v.push(0x62);  // b
    v.push(0x79);  // y
    v.push(0x74);  // t
    v.push(0x65);  // e
    v.push(0x73);  // s
    v.push(0x3d);  // =
    proof {
        assert(v@ =~= wbytes_key());
    }
    v
}

fn line_value(line: &[u8]) -> (r: u64)
    ensures
        r == line_field_value(line@),
{
    let toks = split_ws(line);
    if toks.len() >= 2 {
        proof {
            lemma_deep_view_index(toks, 1);
        }
        match parse_u64(toks[1].as_slice()) {
            Some(v) => v,
            None => 0,
        }
    } else {
        0
    }
}

fn stat_field_exec(lines: &Vec<Vec<u8>>, key: &[u8]) -> (r: u64)
    ensures
        r == stat_field(lines.deep_view(), key@),
{
    let ghost all = lines.deep_view();
    let mut cur: u64 = 0;
    let mut i: usize = 0;
    proof {
        assert(all.subrange(0, 0) =~= Seq::<Seq<u8>>::empty());
    }
    while i < lines.len()
        invariant
            0 <= i <= all.len(),
            all == lines.deep_view(),
            cur == stat_field(all.subrange(0, i as int), key@),
        decreases all.len() - i,
    {
        proof {
            assert(all.subrange(0, i + 1).drop_last() =~= all.subrange(0, i as int));
            assert(all.subrange(0, i + 1).last() == all[i as int]);
            lemma_deep_view_index(*lines, i as int);
        }
        if starts_with(lines[i].as_slice(), key) {
            cur = line_value(lines[i].as_slice());
        }
        i = i + 1;
    }
    proof {
        assert(all.subrange(0, all.len() as int) =~= all);
    }
    cur
}

/// Read the two cumulative CPU counters out of a cpu.stat text: the values on
/// the last "usage_usec " and "system_usec " lines, zero for a missing or
/// malformed line. A malformed line never fails the sample.
pub fn parse_cpu_stat(content: &[u8]) -> (r: (u64, u64))
    ensures
        r.0 == cpu_usage_of(content@),
        r.1 == cpu_system_of(content@),
{
    let lines = split_lines(content);
    let ukey = make_usage_key();
    let skey = make_system_key();
    let usage = stat_field_exec(&lines, ukey.as_slice());
    let system = stat_field_exec(&lines, skey.as_slice());
    (usage, system)
}

/// The single number in memory.current, after trimming; nothing when the
/// content is not a number.
pub open spec fn mem_value_of(content: Seq<u8>) -> Option<u64> {
    parse_u64_spec(trim_spec(content))
}

/// Total physical memory in bytes per a meminfo text: 1024 times the number
/// on the first "MemTotal:" line, clamped to a `u64`; zero when the text is
/// absent, has no such line, or carries no number there.
pub open spec fn memtotal_of(lines: Seq<Seq<u8>>, from: int) -> u64
    decreases lines.len() - from,
{
    if from < 0 || from >= lines.len() {
        0
    } else if starts_with_spec(lines[from], memtotal_key()) {
        clamp_u64((line_field_value(lines[from]) * 1024) as nat)
    } else {
        memtotal_of(lines, from + 1)
    }
}

pub open spec fn system_memory_of(meminfo: Option<Seq<u8>>) -> u64 {
    match meminfo {
        None => 0,
        Some(c) => memtotal_of(lines_spec(c), 0),
    }
}

/// Host memory fallback, from a meminfo text when one could be read.
pub fn get_system_memory(meminfo: Option<&[u8]>) -> (r: u64)
    ensures
        r == system_memory_of(opt_bytes(meminfo)),
{
    match meminfo {
        None => 0,
        Some(content) => {
            let lines = split_lines(content);
            let ghost all = lines.deep_view();
            let key = make_memtotal_key();
            let mut i: usize = 0;
            while i < lines.len()
                invariant
                    0 <= i <= all.len(),
                    all == lines.deep_view(),
                    all == lines_spec(content@),
                    opt_bytes(meminfo) == Some(content@),
                    key@ == memtotal_key(),
                    memtotal_of(all, 0) == memtotal_of(all, i as int),
                decreases all.len() - i,
            {
                proof {
                    lemma_deep_view_index(lines, i as int);
                }
                if starts_with(lines[i].as_slice(), key.as_slice()) {
                    let kb = line_value(lines[i].as_slice());
                    proof {
                        assert(starts_with_spec(all[i as int], memtotal_key()));
                        assert(memtotal_of(all, i as int) == clamp_u64(
                            (line_field_value(all[i as int]) * 1024) as nat,
                        ));
                        assert(kb == line_field_value(all[i as int]));
                    }
                    let bytes_wide: u128 = (kb as u128) * 1024;
                    if bytes_wide > u64::MAX as u128 {
                        return u64::MAX;
                    }
                    return bytes_wide as u64;
                }
                i = i + 1;
            }
            0
        },
    }
}

/// The effective memory ceiling per a memory.max text: the number it holds,
/// or the host's total memory when it holds the literal "max"; nothing when
/// it holds neither.
pub open spec fn mem_limit_of(max_content: Seq<u8>, meminfo: Option<Seq<u8>>) -> Option<u64> {
    if trim_spec(max_content) == max_token() {
        Some(system_memory_of(meminfo))
    } else {
        parse_u64_spec(trim_spec(max_content))
    }
}

/// A ratio as an integer count of thousandths of a percent, rounded down:
/// part * 100000 / whole, zero when the whole is zero, clamped to a `u64`.
pub open spec fn percent_milli(part: u64, whole: u64) -> u64 {
    if whole > 0 {
        clamp_u64((part as nat * 100000) / whole as nat)
    } else {
        0
    }
}

fn percent_milli_exec(part: u64, whole: u64) -> (r: u64)
    ensures
        r == percent_milli(part, whole),
{
    if whole == 0 {
        return 0;
    }
    let q: u128 = (part as u128) * 100000 / (whole as u128);
    if q > u64::MAX as u128 {
        u64::MAX
    } else {
        q as u64
    }
}

/// A mandatory accounting file held content that is not the required number.
#[derive(Debug)]
pub enum RequiredFileError {
    MemoryCurrent,
    MemoryMax,
}

/// Derive (usage bytes, limit bytes, usage percent in thousandths) from the
/// contents of memory.current and memory.max, with the meminfo text as the
/// fallback ceiling when memory.max reads "max". A non-numeric mandatory
/// value aborts the sample; a missing or malformed meminfo degrades to a
/// ceiling of zero and so to a reported zero percent.
pub fn get_memory_usage(current: &[u8], max: &[u8], meminfo: Option<&[u8]>) -> (r: Result<
    (u64, u64, u64),
    RequiredFileError,
>)
    ensures
        match mem_value_of(current@) {
            None => r matches Err(RequiredFileError::MemoryCurrent),
            Some(cur) => match mem_limit_of(max@, opt_bytes(meminfo)) {
                None => r matches Err(RequiredFileError::MemoryMax),
                Some(mx) => r matches Ok(t) && t.0 == cur && t.1 == mx && t.2 == percent_milli(
                    cur,
                    mx,
                ),
            },
        },
{
    let cur_trim = trim(current);
    let cur = match parse_u64(cur_trim.as_slice()) {
        Some(v) => v,
        None => {
            return Err(RequiredFileError::MemoryCurrent);
        },
    };
    let max_trim = trim(max);
    let mtok = make_max_token();
    let mx = if max_trim.len() == 3 && crate::scan::bytes_eq(max_trim.as_slice(), mtok.as_slice()) {
        get_system_memory(meminfo)
    } else {
        match parse_u64(max_trim.as_slice()) {
            Some(v) => v,
            None => {
                return Err(RequiredFileError::MemoryMax);
            },
        }
    };
    let pct = percent_milli_exec(cur, mx);
    Ok((cur, mx, pct))
}

/// The value of one "key=value" token under a key: the number after the key
/// prefix, zero when the token has another key or no number.
pub open spec fn kv_value(tok: Seq<u8>, key: Seq<u8>) -> nat {
    if starts_with_spec(tok, key) {
        match parse_u64_spec(tok.subrange(key.len() as int, tok.len() as int)) {
            Some(v) => v as nat,
            None => 0,
        }
    } else {
        0
    }
}

/// Sum of a key's values over a line's tokens before `upto`, the first token
/// (the device) never counted.
pub open spec fn line_kv_prefix(toks: Seq<Seq<u8>>, upto: int, key: Seq<u8>) -> nat
    decreases upto,
{
    if upto <= 1 || upto > toks.len() {
        0
    } else {
        line_kv_prefix(toks, upto - 1, key) + kv_value(toks[upto - 1], key)
    }
}

pub open spec fn line_kv_total(line: Seq<u8>, key: Seq<u8>) -> nat {
    line_kv_prefix(tokens_spec(line), tokens_spec(line).len() as int, key)
}

/// Sum of a key's values over the lines before `upto`.
pub open spec fn io_prefix(lines: Seq<Seq<u8>>, upto: int, key: Seq<u8>) -> nat
    decreases upto,
{
    if upto <= 0 || upto > lines.len() {
        0
    } else {
        io_prefix(lines, upto - 1, key) + line_kv_total(lines[upto - 1], key)
    }
}

/// Total bytes read, summed over every "rbytes=" pair on every device line of
/// an io.stat text; zero for an absent text.
pub open spec fn block_read_of(io: Option<Seq<u8>>) -> nat {
    match io {
        None => 0,
        Some(c) => io_prefix(lines_spec(c), lines_spec(c).len() as int, rbytes_key()),
    }
}

/// Total bytes written, summed over every "wbytes=" pair likewise.
pub open spec fn block_write_of(io: Option<Seq<u8>>) -> nat {
    match io {
        None => 0,
        Some(c) => io_prefix(lines_spec(c), lines_spec(c).len() as int, wbytes_key()),
    }
}

fn kv_value_exec(tok: &[u8], key: &[u8]) -> (r: u64)
    ensures
        r as nat == kv_value(tok@, key@),
        kv_value(tok@, key@) <= u64::MAX,
{
    if starts_with(tok, key) {
        let rest = vstd::slice::slice_subrange(tok, key.len(), tok.len());
        match parse_u64(rest) {
            Some(v) => v,
            None => 0,
        }
    } else {
        0
    }
}

fn line_kv_total_exec(line: &[u8], key: &[u8]) -> (r: (u64, bool))
    ensures
        r.1 == (line_kv_total(line@, key@) > u64::MAX),
        !r.1 ==> r.0 as nat == line_kv_total(line@, key@),
        r.1 ==> r.0 == u64::MAX,
{
    let toks = split_ws(line);
    let ghost tv = toks.deep_view();
    let mut acc: u64 = 0;
    let mut j: usize = 1;
    let mut saturated: bool = false;
    if toks.len() <= 1 {
        return (0, false);
    }
    while j < toks.len()
        invariant
            1 <= j <= tv.len(),
            tv == toks.deep_view(),
            tv == tokens_spec(line@),
            !saturated ==> acc as nat == line_kv_prefix(tv, j as int, key@),
            saturated ==> acc == u64::MAX && line_kv_prefix(tv, j as int, key@) > u64::MAX,
        decreases tv.len() - j,
    {
        proof {
            lemma_deep_view_index(toks, j as int);
        }
        let v = kv_value_exec(toks[j].as_slice(), key);
        acc = match acc.checked_add(v) {
            Some(s) => s,
            None => {
                proof {
                    assert(acc as nat + v as nat > u64::MAX);
                }
                saturated = true;
                u64::MAX
            },
        };
        if saturated {
            acc = u64::MAX;
        }
        j = j + 1;
    }
    (acc, saturated)
}

/// Aggregate block I/O totals (bytes read, bytes written) from an io.stat
/// text, summed across all device lines, each total clamped to a `u64`. An
/// absent file is no error: both totals are zero.
pub fn get_block_io_usage(io_stat: Option<&[u8]>) -> (r: (u64, u64))
    ensures
        r.0 == clamp_u64(block_read_of(opt_bytes(io_stat))),
        r.1 == clamp_u64(block_write_of(opt_bytes(io_stat))),
{
    match io_stat {
        None => (0, 0),
        Some(content) => {
            let rkey = make_rbytes_key();
            let wkey = make_wbytes_key();
            let read_total = io_total_exec(content, rkey.as_slice());
            let write_total = io_total_exec(content, wkey.as_slice());
            (read_total, write_total)
        },
    }
}

fn io_total_exec(content: &[u8], key: &[u8]) -> (r: u64)
    ensures
        r == clamp_u64(io_prefix(lines_spec(content@), lines_spec(content@).len() as int, key@)),
{
    let lines = split_lines(content);
    let ghost all = lines.deep_view();
    let mut acc: u64 = 0;
    let mut saturated: bool = false;
    let mut i: usize = 0;
    while i < lines.len()
        invariant
            0 <= i <= all.len(),
            all == lines.deep_view(),
            all == lines_spec(content@),
            !saturated ==> acc as nat == io_prefix(all, i as int, key@),
            saturated ==> acc == u64::MAX && io_prefix(all, i as int, key@) > u64::MAX,
        decreases all.len() - i,
    {
        proof {
            lemma_deep_view_index(lines, i as int);
        }
        let (lv, line_over) = line_kv_total_exec(lines[i].as_slice(), key);
        acc = match acc.checked_add(lv) {
            Some(s) => s,
            None => {
                saturated = true;
                u64::MAX
            },
        };
        if line_over {
            saturated = true;
        }
        if saturated {
            acc = u64::MAX;
        }
        i = i + 1;
    }
    if saturated {
        u64::MAX
    } else {
        acc
    }
}

/// One immutable snapshot of a container's resource usage. Percentages are
/// carried in thousandths of a percent (50000 means 50%); the timestamp is
/// nanoseconds since the Unix epoch, as supplied by the caller's clock.
pub struct ContainerStats {
    pub id: Vec<u8>,
    pub name: Vec<u8>,
    pub cpu_percent_milli: u64,
    pub cpu_usage_usec: u64,
    pub system_usage_usec: u64,
    pub memory_usage: u64,
    pub memory_limit: u64,
    pub memory_percent_milli: u64,
    pub network_rx: u64,
    pub network_tx: u64,
    pub block_read: u64,
    pub block_write: u64,
    pub timestamp_ns: u64,
}

/// The contents of the accounting files for one sampling pass, as read by the
/// caller: the three mandatory files, and the two optional ones where a read
/// failure degrades to absence.
pub struct SampleFiles {
    pub cpu_stat: Vec<u8>,
    pub memory_current: Vec<u8>,
    pub memory_max: Vec<u8>,
    pub meminfo: Option<Vec<u8>>,
    pub io_stat: Option<Vec<u8>>,
}

pub open spec fn opt_vec_bytes(o: Option<Vec<u8>>) -> Option<Seq<u8>> {
    match o {
        Some(v) => Some(v@),
        None => None,
    }
}

/// The previous-sample cache as a value: the association list read as a map,
/// a later entry overriding an earlier one with the same key.
pub open spec fn alist_map(s: Seq<(Vec<u8>, (u64, u64))>) -> Map<Seq<u8>, (u64, u64)>
    decreases s.len(),
{
    if s.len() == 0 {
        Map::empty()
    } else {
        alist_map(s.drop_last()).insert(s.last().0@, s.last().1)
    }
}

pub open spec fn cache_get(m: Map<Seq<u8>, (u64, u64)>, k: Seq<u8>) -> Option<(u64, u64)> {
    if m.contains_key(k) {
        Some(m[k])
    } else {
        None
    }
}

proof fn lemma_alist_lookup(s: Seq<(Vec<u8>, (u64, u64))>, i: int, k: Seq<u8>)
    requires
        0 <= i < s.len(),
        s[i].0@ == k,
        forall|t: int| i < t < s.len() ==> (#[trigger] s[t]).0@ != k,
    ensures
        alist_map(s).contains_key(k),
        alist_map(s)[k] == s[i].1,
    decreases s.len(),
{
    if i == s.len() - 1 {
    } else {
        assert(s.drop_last()[i] == s[i]);
        assert forall|t: int| i < t < s.drop_last().len() implies (#[trigger] s.drop_last()[t]).0@
            != k by {
            assert(s.drop_last()[t] == s[t]);
        }
        lemma_alist_lookup(s.drop_last(), i, k);
        assert(s.last() == s[s.len() - 1]);
    }
}

proof fn lemma_alist_absent(s: Seq<(Vec<u8>, (u64, u64))>, k: Seq<u8>)
    requires
        forall|t: int| 0 <= t < s.len() ==> (#[trigger] s[t]).0@ != k,
    ensures
        !alist_map(s).contains_key(k),
    decreases s.len(),
{
    if s.len() > 0 {
        assert forall|t: int| 0 <= t < s.drop_last().len() implies (#[trigger] s.drop_last()[t]).0@
            != k by {
            assert(s.drop_last()[t] == s[t]);
        }
        lemma_alist_absent(s.drop_last(), k);
        assert(s.last() == s[s.len() - 1]);
    }
}

proof fn lemma_alist_update(s: Seq<(Vec<u8>, (u64, u64))>, i: int, e: (Vec<u8>, (u64, u64)))
    requires
        0 <= i < s.len(),
        s[i].0@ == e.0@,
        forall|t: int| i < t < s.len() ==> (#[trigger] s[t]).0@ != e.0@,
    ensures
        alist_map(s.update(i, e)) == alist_map(s).insert(e.0@, e.1),
    decreases s.len(),
{
    let su = s.update(i, e);
    if i == s.len() - 1 {
        assert(su.drop_last() =~= s.drop_last());
        assert(su.last() == e);
        assert(alist_map(su) == alist_map(s.drop_last()).insert(e.0@, e.1));
        assert(alist_map(s.drop_last()).insert(s.last().0@, s.last().1).insert(e.0@, e.1)
            =~= alist_map(s.drop_last()).insert(e.0@, e.1));
    } else {
        assert(s.drop_last()[i] == s[i]);
        assert forall|t: int| i < t < s.drop_last().len() implies (#[trigger] s.drop_last()[t]).0@
            != e.0@ by {
            assert(s.drop_last()[t] == s[t]);
        }
        lemma_alist_update(s.drop_last(), i, e);
        assert(su.drop_last() =~= s.drop_last().update(i, e));
        assert(su.last() == s.last());
        assert(s.last() == s[s.len() - 1]);
        assert(s.last().0@ != e.0@);
        assert(alist_map(su) == alist_map(s.drop_last()).insert(e.0@, e.1).insert(
            s.last().0@,
            s.last().1,
        ));
        assert(alist_map(s.drop_last()).insert(e.0@, e.1).insert(s.last().0@, s.last().1)
            =~= alist_map(s.drop_last()).insert(s.last().0@, s.last().1).insert(e.0@, e.1));
    }
}

/// The CPU load between two samples, in thousandths of a percent: the growth
/// of the cumulative usage counter (zero if the counter went backwards) per
/// elapsed microsecond, times one hundred thousand, rounded down and clamped.
/// Zero without a previous sample, and zero when no whole microsecond
/// elapsed (identical or inverted timestamps included).
pub open spec fn cpu_percent_milli_spec(prev: Option<(u64, u64)>, usage: u64, now_ns: u64) -> u64 {
    match prev {
        None => 0,
        Some(pv) => {
            let delta: int = if usage >= pv.0 {
                usage - pv.0
            } else {
                0
            };
            if now_ns <= pv.1 {
                0
            } else {
                let td: int = (now_ns - pv.1) / 1000;
                if td <= 0 {
                    0
                } else {
                    clamp_u64(((delta * 100000) / td) as nat)
                }
            }
        },
    }
}

fn compute_cpu_percent(prev: Option<(u64, u64)>, usage: u64, now_ns: u64) -> (r: u64)
    ensures
        r == cpu_percent_milli_spec(prev, usage, now_ns),
{
    match prev {
        None => 0,
        Some((pu, pt)) => {
            if now_ns <= pt {
                return 0;
            }
            let td: u64 = (now_ns - pt) / 1000;
            if td == 0 {
                return 0;
            }
            let delta: u64 = if usage >= pu {
                usage - pu
            } else {
                0
            };
            let q: u128 = (delta as u128) * 100000 / (td as u128);
            if q > u64::MAX as u128 {
                u64::MAX
            } else {
                q as u64
            }
        },
    }
}

/// Without a previous sample there is no rate: the first sample of any
/// container reports exactly zero percent CPU.
pub proof fn lemma_first_sample_zero_percent(usage: u64, now_ns: u64)
    ensures
        cpu_percent_milli_spec(None, usage, now_ns) == 0,
{
}

/// A usage counter that moved backwards between two samples (a reset) makes
/// the reported percentage exactly zero, never a negative value.
pub proof fn lemma_counter_reset_zero_percent(prev: (u64, u64), usage: u64, now_ns: u64)
    requires
        usage < prev.0,
    ensures
        cpu_percent_milli_spec(Some(prev), usage, now_ns) == 0,
{
}

/// The samplers' stateful side: the previous-sample cache, keyed by the
/// container name exactly as the caller supplies it, holding the cumulative
/// CPU microseconds and the clock nanoseconds of the last sample.
pub struct ContainerMonitor {
    pub cgroup_manager: CgroupManager,
    previous_stats: Vec<(Vec<u8>, (u64, u64))>,
}

/// Every field of a stats record pinned to the file contents, the previous
/// cache, and the clock reading of the sampling pass that produced it.
pub open spec fn stats_record_matches(
    st: ContainerStats,
    prev: Map<Seq<u8>, (u64, u64)>,
    name: Seq<u8>,
    id: Seq<u8>,
    files: SampleFiles,
    now_ns: u64,
) -> bool {
    &&& st.id@ == id
    &&& st.name@ == name
    &&& st.cpu_percent_milli == cpu_percent_milli_spec(
        cache_get(prev, name),
        cpu_usage_of(files.cpu_stat@),
        now_ns,
    )
    &&& st.cpu_usage_usec == cpu_usage_of(files.cpu_stat@)
    &&& st.system_usage_usec == cpu_system_of(files.cpu_stat@)
    &&& Some(st.memory_usage) == mem_value_of(files.memory_current@)
    &&& Some(st.memory_limit) == mem_limit_of(files.memory_max@, opt_vec_bytes(files.meminfo))
    &&& st.memory_percent_milli == percent_milli(st.memory_usage, st.memory_limit)
    &&& st.network_rx == 0
    &&& st.network_tx == 0
    &&& st.block_read == clamp_u64(block_read_of(opt_vec_bytes(files.io_stat)))
    &&& st.block_write == clamp_u64(block_write_of(opt_vec_bytes(files.io_stat)))
    &&& st.timestamp_ns == now_ns
}

/// Across two consecutive samples of the same container the reported
/// cumulative CPU counter never decreases as long as the kernel's counter
/// itself did not: the record carries the counter through unchanged, whatever
/// the derived percentage does.
pub proof fn lemma_consecutive_usage_monotone(
    st1: ContainerStats,
    st2: ContainerStats,
    prev1: Map<Seq<u8>, (u64, u64)>,
    prev2: Map<Seq<u8>, (u64, u64)>,
    name: Seq<u8>,
    id: Seq<u8>,
    f1: SampleFiles,
    f2: SampleFiles,
    t1: u64,
    t2: u64,
)
    requires
        stats_record_matches(st1, prev1, name, id, f1, t1),
        stats_record_matches(st2, prev2, name, id, f2, t2),
        cpu_usage_of(f1.cpu_stat@) <= cpu_usage_of(f2.cpu_stat@),
    ensures
        st1.cpu_usage_usec <= st2.cpu_usage_usec,
{
}

impl ContainerMonitor {
    /// The previous-sample cache as a map from container name to the pair
    /// (cumulative CPU microseconds, clock nanoseconds) of the last sample.
    pub closed spec fn cache(&self) -> Map<Seq<u8>, (u64, u64)> {
        alist_map(self.previous_stats@)
    }

    /// The locator this monitor carries, unchanged by sampling.
    pub closed spec fn manager(&self) -> CgroupManager {
        self.cgroup_manager
    }

    /// A monitor with an empty cache: its first sample of any container will
    /// report zero percent CPU and seed the cache.
    pub fn new() -> (m: ContainerMonitor)
        ensures
            m.cache() == Map::<Seq<u8>, (u64, u64)>::empty(),
            m.manager().root_view() == cgroup_root_path(),
    {
        ContainerMonitor { cgroup_manager: CgroupManager::new(), previous_stats: Vec::new() }
    }

    fn lookup_prev(&self, name: &[u8]) -> (r: Option<(u64, u64)>)
        ensures
            r == cache_get(self.cache(), name@),
    {
        let ghost s = self.previous_stats@;
        let mut j: usize = self.previous_stats.len();
        while j > 0
            invariant
                0 <= j <= s.len(),
                s == self.previous_stats@,
                forall|t: int| j <= t < s.len() ==> (#[trigger] s[t]).0@ != name@,
            decreases j,
        {
            j = j - 1;
            if bytes_eq(self.previous_stats[j].0.as_slice(), name) {
                proof {
                    lemma_alist_lookup(s, j as int, name@);
                }
                return Some(self.previous_stats[j].1);
            }
        }
        proof {
            lemma_alist_absent(s, name@);
        }
        None
    }

    fn store_prev(&mut self, name: &[u8], entry: (u64, u64))
        ensures
            final(self).cache() == old(self).cache().insert(name@, entry),
            final(self).cgroup_manager == old(self).cgroup_manager,
    {
        let ghost s = self.previous_stats@;
        let mut j: usize = self.previous_stats.len();
        while j > 0
            invariant
                0 <= j <= s.len(),
                *self == *old(self),
                s == self.previous_stats@,
                forall|t: int| j <= t < s.len() ==> (#[trigger] s[t]).0@ != name@,
            decreases j,
        {
            j = j - 1;
            if bytes_eq(self.previous_stats[j].0.as_slice(), name) {
                let nk = slice_to_vec(name);
                let slot = vec_index_mut(&mut self.previous_stats, j);
                *slot = (nk, entry);
                proof {
                    lemma_alist_update(s, j as int, (nk, entry));
                }
                return ;
            }
        }
        let nk = slice_to_vec(name);
        self.previous_stats.push((nk, entry));
        proof {
            assert(self.previous_stats@.drop_last() =~= s);
            assert(self.previous_stats@.last() == (nk, entry));
        }
    }

    /// Derive (percent in thousandths, cumulative usage, cumulative system
    /// time) from a cpu.stat text against the cached previous sample for this
    /// name, then overwrite the cache entry with the counters just read --
    /// also on the first sample, which only seeds the cache and reports zero.
    pub fn get_cpu_usage(&mut self, cpu_stat: &[u8], container_name: &[u8], now_ns: u64) -> (r: (
        u64,
        u64,
        u64,
    ))
        ensures
            r.0 == cpu_percent_milli_spec(
                cache_get(old(self).cache(), container_name@),
                cpu_usage_of(cpu_stat@),
                now_ns,
            ),
            r.1 == cpu_usage_of(cpu_stat@),
            r.2 == cpu_system_of(cpu_stat@),
            final(self).cache() == old(self).cache().insert(
                container_name@,
                (cpu_usage_of(cpu_stat@), now_ns),
            ),
            final(self).manager() == old(self).manager(),
    {
        let (usage, system) = parse_cpu_stat(cpu_stat);
        let prev = self.lookup_prev(container_name);
        let pct = compute_cpu_percent(prev, usage, now_ns);
        self.store_prev(container_name, (usage, now_ns));
        (pct, usage, system)
    }

    /// Network accounting is deliberately not implemented: always (0, 0).
    pub fn get_network_usage(&self) -> (r: (u64, u64))
        ensures
            r.0 == 0,
            r.1 == 0,
    {
        (0, 0)
    }

    /// One whole sampling pass over file contents the caller read: CPU first
    /// (this updates the cache even when a later reading fails), then memory,
    /// network and block I/O, assembled into one record stamped with the
    /// caller's clock. Fails exactly when a mandatory memory value is not a
    /// number.
    pub fn get_stats(
        &mut self,
        container_name: &[u8],
        container_id: &[u8],
        files: &SampleFiles,
        now_ns: u64,
    ) -> (r: Result<ContainerStats, RequiredFileError>)
        ensures
            final(self).cache() == old(self).cache().insert(
                container_name@,
                (cpu_usage_of(files.cpu_stat@), now_ns),
            ),
            final(self).manager() == old(self).manager(),
            match mem_value_of(files.memory_current@) {
                None => r matches Err(RequiredFileError::MemoryCurrent),
                Some(cur) => match mem_limit_of(
                    files.memory_max@,
                    opt_vec_bytes(files.meminfo),
                ) {
                    None => r matches Err(RequiredFileError::MemoryMax),
                    Some(mx) => r matches Ok(st) && stats_record_matches(
                        st,
                        old(self).cache(),
                        container_name@,
                        container_id@,
                        *files,
                        now_ns,
                    ),
                },
            },
    {
        let (cpu_pct, usage, system) = self.get_cpu_usage(
            files.cpu_stat.as_slice(),
            container_name,
            now_ns,
        );
        let meminfo: Option<&[u8]> = match &files.meminfo {
            Some(v) => Some(v.as_slice()),
            None => None,
        };
        let (mem_usage, mem_limit, mem_pct) = match get_memory_usage(
            files.memory_current.as_slice(),
            files.memory_max.as_slice(),
            meminfo,
        ) {
            Ok(t) => t,
            Err(e) => {
                return Err(e);
            },
        };
        let (net_rx, net_tx) = self.get_network_usage();
        let io_stat: Option<&[u8]> = match &files.io_stat {
            Some(v) => Some(v.as_slice()),
            None => None,
        };
        let (block_read, block_write) = get_block_io_usage(io_stat);
        Ok(
            ContainerStats {
                id: slice_to_vec(container_id),
                name: slice_to_vec(container_name),
                cpu_percent_milli: cpu_pct,
                cpu_usage_usec: usage,
                system_usage_usec: system,
                memory_usage: mem_usage,
                memory_limit: mem_limit,
                memory_percent_milli: mem_pct,
                network_rx: net_rx,
                network_tx: net_tx,
                block_read,
                block_write,
                timestamp_ns: now_ns,
            },
        )
    }
}

} // verus!
