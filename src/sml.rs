//! Decoding of SML (Smart Message Language) meter messages.

use vstd::prelude::*;

verus! {

/// `256^n`.
pub open spec fn pow256(n: nat) -> int
    decreases n,
{
    if n == 0 {
        1
    } else {
        256 * pow256((n - 1) as nat)
    }
}

/// The unsigned integer that the bytes `d` denote in big-endian order.
pub open spec fn be_unsigned(d: Seq<u8>) -> int
    decreases d.len(),
{
    if d.len() == 0 {
        0
    } else {
        be_unsigned(d.drop_last()) * 256 + d.last()
    }
}

/// The two's-complement integer that the bytes `d` denote in big-endian order:
/// the unsigned value, less `256^len` when the first byte has its high bit set.
pub open spec fn be_signed(d: Seq<u8>) -> int {
    if d.len() > 0 && d[0] >= 128 {
        be_unsigned(d) - pow256(d.len())
    } else {
        be_unsigned(d)
    }
}

proof fn lemma_pow256_pos(n: nat)
    ensures
        pow256(n) >= 1,
    decreases n,
{
    if n > 0 {
        lemma_pow256_pos((n - 1) as nat);
    }
}

proof fn lemma_pow256_values()
    ensures
        pow256(1) == 256,
        pow256(7) == 0x100_0000_0000_0000,
        pow256(8) == 0x1_0000_0000_0000_0000,
{
    reveal_with_fuel(pow256, 9);
}

proof fn lemma_pow256_mono(a: nat, b: nat)
    requires
        a <= b,
    ensures
        pow256(a) <= pow256(b),
    decreases b,
{
    if a < b {
        lemma_pow256_mono(a, (b - 1) as nat);
        lemma_pow256_pos((b - 1) as nat);
    }
}

/// A big-endian value lies between its first byte times `256^(len-1)` and the
/// next multiple of it.
proof fn lemma_be_unsigned_bounds(d: Seq<u8>)
    requires
        d.len() >= 1,
    ensures
        d[0] * pow256((d.len() - 1) as nat) <= be_unsigned(d),
        be_unsigned(d) < (d[0] + 1) * pow256((d.len() - 1) as nat),
    decreases d.len(),
{
    if d.len() > 1 {
        let e = d.drop_last();
        lemma_be_unsigned_bounds(e);
        assert(e[0] == d[0]);
        let p = pow256((e.len() - 1) as nat);
        assert(pow256((d.len() - 1) as nat) == 256 * p);
        let b = be_unsigned(e);
        let x = d[0] as int;
        let l = d.last() as int;
        assert(be_unsigned(d) == b * 256 + l);
        assert(x * p <= b && b < (x + 1) * p);
        assert(d.last() == d[d.len() - 1]);
        assert(x * (256 * p) <= b * 256 + l && b * 256 + l < (x + 1) * (256 * p)) by (nonlinear_arith)
            requires
                x * p <= b,
                b + 1 <= (x + 1) * p,
                0 <= l < 256,
        ;
    } else {
        assert(d.drop_last().len() == 0);
        assert(be_unsigned(d.drop_last()) == 0);
        assert(pow256(0) == 1);
        assert(be_unsigned(d) == d[0]);
    }
}

proof fn lemma_be_unsigned_push(d: Seq<u8>, b: u8)
    ensures
        be_unsigned(d.push(b)) == be_unsigned(d) * 256 + b,
{
    assert(d.push(b).drop_last() =~= d);
}


/// The single error of the decoder: the bytes do not follow the grammar.
#[non_exhaustive]
#[derive(Debug, PartialEq, Eq)]
pub enum ParseError {
    Unknown,
}

pub type ParseResult<T> = Result<T, ParseError>;

/// The value of a list entry.
#[derive(Debug, Clone, PartialEq, Eq)]
pub enum AnyValue {
    String(Vec<u8>),
    Signed(i64),
    Unsigned(u64),
}

/// One entry of a `GetListResponse`.
#[derive(Debug, Clone, PartialEq, Eq)]
pub struct SmlListEntry {
    pub object_name: Vec<u8>,
    pub status: Option<u64>,
    pub value_time: Vec<u8>,
    pub unit: Option<u64>,
    pub scaler: Option<i64>,
    pub value: AnyValue,
}

#[derive(Debug, Clone, PartialEq, Eq)]
pub struct GetOpenResponseBody {
    pub server_id: Vec<u8>,
    pub req_file_id: Vec<u8>,
}

#[derive(Debug, Clone, PartialEq, Eq)]
pub struct GetListResponseBody {
    pub server_id: Vec<u8>,
    pub list_name: Vec<u8>,
    pub value_list: Vec<SmlListEntry>,
}

#[derive(Debug, Clone, PartialEq, Eq)]
pub enum SmlMessageEnvelope {
    GetOpenResponse(GetOpenResponseBody),
    GetListResponse(GetListResponseBody),
    GetCloseResponse,
}

/// The messages of one SML transmission, in order.
#[derive(Debug, Clone, PartialEq, Eq)]
pub struct SmlMessages {
    pub messages: Vec<SmlMessageEnvelope>,
}

/// Mathematical value of an [`AnyValue`].
pub enum ValueModel {
    Bytes(Seq<u8>),
    Signed(int),
    Unsigned(int),
}

/// Mathematical value of an [`SmlListEntry`].
pub struct EntryModel {
    pub object_name: Seq<u8>,
    pub status: Option<int>,
    pub value_time: Seq<u8>,
    pub unit: Option<int>,
    pub scaler: Option<int>,
    pub value: ValueModel,
}

/// Mathematical value of a [`GetOpenResponseBody`].
pub struct OpenModel {
    pub server_id: Seq<u8>,
    pub req_file_id: Seq<u8>,
}

/// Mathematical value of a [`GetListResponseBody`].
pub struct ListModel {
    pub server_id: Seq<u8>,
    pub list_name: Seq<u8>,
    pub value_list: Seq<EntryModel>,
}

/// Mathematical value of an [`SmlMessageEnvelope`].
pub enum EnvelopeModel {
    Open(OpenModel),
    List(ListModel),
    Close,
}

pub open spec fn opt_u64_view(o: Option<u64>) -> Option<int> {
    match o {
        Some(x) => Some(x as int),
        None => None,
    }
}

pub open spec fn opt_i64_view(o: Option<i64>) -> Option<int> {
    match o {
        Some(x) => Some(x as int),
        None => None,
    }
}

impl View for AnyValue {
    type V = ValueModel;

    open spec fn view(&self) -> ValueModel {
        match self {
            AnyValue::String(v) => ValueModel::Bytes(v@),
            AnyValue::Signed(x) => ValueModel::Signed(*x as int),
            AnyValue::Unsigned(x) => ValueModel::Unsigned(*x as int),
        }
    }
}

impl View for SmlListEntry {
    type V = EntryModel;

    open spec fn view(&self) -> EntryModel {
        EntryModel {
            object_name: self.object_name@,
            status: opt_u64_view(self.status),
            value_time: self.value_time@,
            unit: opt_u64_view(self.unit),
            scaler: opt_i64_view(self.scaler),
            value: self.value@,
        }
    }
}

pub open spec fn entries_view(v: Seq<SmlListEntry>) -> Seq<EntryModel> {
    v.map_values(|e: SmlListEntry| e@)
}

impl View for GetOpenResponseBody {
    type V = OpenModel;

    open spec fn view(&self) -> OpenModel {
        OpenModel { server_id: self.server_id@, req_file_id: self.req_file_id@ }
    }
}

impl View for GetListResponseBody {
    type V = ListModel;

    open spec fn view(&self) -> ListModel {
        ListModel {
            server_id: self.server_id@,
            list_name: self.list_name@,
            value_list: entries_view(self.value_list@),
        }
    }
}

impl View for SmlMessageEnvelope {
    type V = EnvelopeModel;

    open spec fn view(&self) -> EnvelopeModel {
        match self {
            SmlMessageEnvelope::GetOpenResponse(b) => EnvelopeModel::Open(b@),
            SmlMessageEnvelope::GetListResponse(b) => EnvelopeModel::List(b@),
            SmlMessageEnvelope::GetCloseResponse => EnvelopeModel::Close,
        }
    }
}

pub open spec fn envelopes_view(v: Seq<SmlMessageEnvelope>) -> Seq<EnvelopeModel> {
    v.map_values(|e: SmlMessageEnvelope| e@)
}

impl View for SmlMessages {
    type V = Seq<EnvelopeModel>;

    open spec fn view(&self) -> Seq<EnvelopeModel> {
        envelopes_view(self.messages@)
    }
}

// The grammar. Each rule reads `s` from position `p` and gives the value it
// decodes and the position after it, or `None` where the bytes do not match.

pub open spec fn byte_at(s: Seq<u8>, p: int, b: u8) -> bool {
    0 <= p < s.len() && s[p] == b
}

/// `n` bytes from `p`.
pub open spec fn take(s: Seq<u8>, p: int, n: int) -> Option<(Seq<u8>, int)> {
    if 0 <= p && 0 <= n && p + n <= s.len() {
        Some((s.subrange(p, p + n), p + n))
    } else {
        None
    }
}

/// Data length of a long string: 14, 30 or 46 after the prefix `0x81`, `0x82`
/// or `0x83`, plus the nibble of the second byte.
pub open spec fn long_string_len(prefix: u8, nibble: u8) -> int {
    if prefix == 0x81 {
        14 + nibble
    } else if prefix == 0x82 {
        30 + nibble
    } else {
        46 + nibble
    }
}

/// An octet string: a short one (prefix `0x01..=0x0F`, `prefix - 1` bytes), or
/// a long one (prefix `0x81..=0x83` and a byte `0x00..=0x0F`).
pub open spec fn spec_string(s: Seq<u8>, p: int) -> Option<(Seq<u8>, int)> {
    if 0 <= p < s.len() && 0x01 <= s[p] <= 0x0f {
        take(s, p + 1, s[p] - 1)
    } else if 0 <= p && p + 1 < s.len() && 0x81 <= s[p] <= 0x83 && s[p + 1] <= 0x0f {
        take(s, p + 2, long_string_len(s[p], s[p + 1]))
    } else {
        None
    }
}

/// An unsigned integer: prefix `0x62..=0x69`, then `prefix - 0x61` big-endian bytes.
pub open spec fn spec_unsigned(s: Seq<u8>, p: int) -> Option<(int, int)> {
    if 0 <= p < s.len() && 0x62 <= s[p] <= 0x69 {
        match take(s, p + 1, s[p] - 0x61) {
            Some((d, q)) => Some((be_unsigned(d), q)),
            None => None,
        }
    } else {
        None
    }
}

/// A signed integer: prefix `0x52..=0x59`, then `prefix - 0x51` big-endian
/// two's-complement bytes.
pub open spec fn spec_signed(s: Seq<u8>, p: int) -> Option<(int, int)> {
    if 0 <= p < s.len() && 0x52 <= s[p] <= 0x59 {
        match take(s, p + 1, s[p] - 0x51) {
            Some((d, q)) => Some((be_signed(d), q)),
            None => None,
        }
    } else {
        None
    }
}

/// An unsigned integer, or `0x01` for none.
pub open spec fn spec_opt_unsigned(s: Seq<u8>, p: int) -> Option<(Option<int>, int)> {
    match spec_unsigned(s, p) {
        Some((v, q)) => Some((Some(v), q)),
        None => if byte_at(s, p, 0x01) {
            Some((None, p + 1))
        } else {
            None
        },
    }
}

/// A signed integer, or `0x01` for none.
pub open spec fn spec_opt_signed(s: Seq<u8>, p: int) -> Option<(Option<int>, int)> {
    match spec_signed(s, p) {
        Some((v, q)) => Some((Some(v), q)),
        None => if byte_at(s, p, 0x01) {
            Some((None, p + 1))
        } else {
            None
        },
    }
}

/// A string, else a signed, else an unsigned integer.
pub open spec fn spec_value(s: Seq<u8>, p: int) -> Option<(ValueModel, int)> {
    match spec_string(s, p) {
        Some((v, q)) => Some((ValueModel::Bytes(v), q)),
        None => match spec_signed(s, p) {
            Some((v, q)) => Some((ValueModel::Signed(v), q)),
            None => match spec_unsigned(s, p) {
                Some((v, q)) => Some((ValueModel::Unsigned(v), q)),
                None => None,
            },
        },
    }
}

/// Reads `n <= 8` bytes of `s` from `start` as a big-endian unsigned integer.
fn read_be_u64(s: &[u8], start: usize, n: usize) -> (r: u64)
    requires
        start + n <= s@.len(),
        n <= 8,
    ensures
        r == be_unsigned(s@.subrange(start as int, start + n)),
{
    let len = s.len();
    let mut acc: u64 = 0;
    let mut i: usize = 0;
    while i < n
        invariant
            len == s@.len(),
            i <= n <= 8,
            start + n <= s@.len(),
            acc == be_unsigned(s@.subrange(start as int, start + i)),
            acc < pow256(i as nat),
        decreases n - i,
    {
        proof {
            let d = s@.subrange(start as int, start + i);
            lemma_be_unsigned_push(d, s@[start + i]);
            assert(d.push(s@[start + i]) =~= s@.subrange(start as int, start + i + 1));
            lemma_pow256_mono((i + 1) as nat, 8);
            lemma_pow256_values();
            assert(pow256((i + 1) as nat) == 256 * pow256(i as nat));
            assert(acc * 256 + s@[start + i] < pow256((i + 1) as nat)) by (nonlinear_arith)
                requires
                    acc < pow256(i as nat),
                    s@[start + i] < 256,
                    pow256((i + 1) as nat) == 256 * pow256(i as nat),
            ;
        }
        acc = acc * 256 + s[start + i] as u64;
        i = i + 1;
    }
    acc
}

fn pow256_exec(n: usize) -> (r: u128)
    requires
        n <= 8,
    ensures
        r == pow256(n as nat),
{
    let mut r: u128 = 1;
    let mut i: usize = 0;
    while i < n
        invariant
            i <= n <= 8,
            r == pow256(i as nat),
        decreases n - i,
    {
        proof {
            lemma_pow256_mono((i + 1) as nat, 8);
            lemma_pow256_values();
        }
        r = r * 256;
        i = i + 1;
    }
    r
}

/// Copies `n` bytes of `s` from `start`.
fn copy_bytes(s: &[u8], start: usize, n: usize) -> (r: Vec<u8>)
    requires
        start + n <= s@.len(),
    ensures
        r@ == s@.subrange(start as int, start + n),
{
    let len = s.len();
    let mut r: Vec<u8> = Vec::new();
    let mut i: usize = 0;
    while i < n
        invariant
            len == s@.len(),
            i <= n,
            start + n <= s@.len(),
            r@ == s@.subrange(start as int, start + i),
        decreases n - i,
    {
        r.push(s[start + i]);
        i = i + 1;
        assert(r@ =~= s@.subrange(start as int, start + i));
    }
    r
}

fn parse_string(s: &[u8], p: usize) -> (r: Option<(Vec<u8>, usize)>)
    ensures
        match r {
            Some((v, q)) => spec_string(s@, p as int) == Some((v@, q as int)),
            None => spec_string(s@, p as int) is None,
        },
{
    if p < s.len() && 0x01 <= s[p] && s[p] <= 0x0f {
        let n = (s[p] - 1) as usize;
        if n <= s.len() - (p + 1) {
            Some((copy_bytes(s, p + 1, n), p + 1 + n))
        } else {
            None
        }
    } else if p < s.len() && p + 1 < s.len() && 0x81 <= s[p] && s[p] <= 0x83 && s[p + 1] <= 0x0f {
        let base: usize = if s[p] == 0x81 {
            14
        } else if s[p] == 0x82 {
            30
        } else {
            46
        };
        let n = base + s[p + 1] as usize;
        if n <= s.len() - (p + 2) {
            Some((copy_bytes(s, p + 2, n), p + 2 + n))
        } else {
            None
        }
    } else {
        None
    }
}

fn parse_unsigned_at(s: &[u8], p: usize) -> (r: Option<(u64, usize)>)
    ensures
        match r {
            Some((v, q)) => spec_unsigned(s@, p as int) == Some((v as int, q as int)),
            None => spec_unsigned(s@, p as int) is None,
        },
{
    if p < s.len() && 0x62 <= s[p] && s[p] <= 0x69 {
        let n = (s[p] - 0x61) as usize;
        if n <= s.len() - (p + 1) {
            Some((read_be_u64(s, p + 1, n), p + 1 + n))
        } else {
            None
        }
    } else {
        None
    }
}

fn parse_signed_at(s: &[u8], p: usize) -> (r: Option<(i64, usize)>)
    ensures
        match r {
            Some((v, q)) => spec_signed(s@, p as int) == Some((v as int, q as int)),
            None => spec_signed(s@, p as int) is None,
        },
{
    if p < s.len() && 0x52 <= s[p] && s[p] <= 0x59 {
        let n = (s[p] - 0x51) as usize;
        if n <= s.len() - (p + 1) {
            let u = read_be_u64(s, p + 1, n);
            let ghost d = s@.subrange(p + 1, p + 1 + n);
            proof {
                lemma_be_unsigned_bounds(d);
                lemma_pow256_pos((n - 1) as nat);
                lemma_pow256_mono((n - 1) as nat, 7);
                lemma_pow256_values();
                assert(pow256(n as nat) == 256 * pow256((n - 1) as nat));
                assert(d[0] == s@[p + 1]);
            }
            let v: i64 = if s[p + 1] >= 128 {
                let pw = pow256_exec(n);
                proof {
                    let m = pow256((n - 1) as nat);
                    assert(128 * m <= 128 * 0x100_0000_0000_0000) by (nonlinear_arith)
                        requires
                            m <= 0x100_0000_0000_0000,
                    ;
                    assert(d[0] * m >= 128 * m) by (nonlinear_arith)
                        requires
                            d[0] >= 128,
                            m >= 0,
                    ;
                    assert(u < 256 * m) by (nonlinear_arith)
                        requires
                            u < (d[0] + 1) * m,
                            d[0] < 256,
                            m >= 0,
                    ;
                }
                (u as i128 - pw as i128) as i64
            } else {
                proof {
                    let m = pow256((n - 1) as nat);
                    assert((d[0] + 1) * m <= 128 * m) by (nonlinear_arith)
                        requires
                            d[0] < 128,
                            m >= 0,
                    ;
                    assert(128 * m <= 128 * 0x100_0000_0000_0000) by (nonlinear_arith)
                        requires
                            m <= 0x100_0000_0000_0000,
                    ;
                }
                u as i64
            };
            Some((v, p + 1 + n))
        } else {
            None
        }
    } else {
        None
    }
}

fn parse_opt_unsigned(s: &[u8], p: usize) -> (r: Option<(Option<u64>, usize)>)
    ensures
        match r {
            Some((v, q)) => spec_opt_unsigned(s@, p as int) == Some((opt_u64_view(v), q as int)),
            None => spec_opt_unsigned(s@, p as int) is None,
        },
{
    match parse_unsigned_at(s, p) {
        Some((v, q)) => Some((Some(v), q)),
        None => if p < s.len() && s[p] == 0x01 {
            Some((None, p + 1))
        } else {
            None
        },
    }
}

fn parse_opt_signed(s: &[u8], p: usize) -> (r: Option<(Option<i64>, usize)>)
    ensures
        match r {
            Some((v, q)) => spec_opt_signed(s@, p as int) == Some((opt_i64_view(v), q as int)),
            None => spec_opt_signed(s@, p as int) is None,
        },
{
    match parse_signed_at(s, p) {
        Some((v, q)) => Some((Some(v), q)),
        None => if p < s.len() && s[p] == 0x01 {
            Some((None, p + 1))
        } else {
            None
        },
    }
}

fn parse_value(s: &[u8], p: usize) -> (r: Option<(AnyValue, usize)>)
    ensures
        match r {
            Some((v, q)) => spec_value(s@, p as int) == Some((v@, q as int)),
            None => spec_value(s@, p as int) is None,
        },
{
    match parse_string(s, p) {
        Some((v, q)) => Some((AnyValue::String(v), q)),
        None => match parse_signed_at(s, p) {
            Some((v, q)) => Some((AnyValue::Signed(v), q)),
            None => match parse_unsigned_at(s, p) {
                Some((v, q)) => Some((AnyValue::Unsigned(v), q)),
                None => None,
            },
        },
    }
}

/// A list entry: `0x77`, then object name, status, value time, unit, scaler,
/// value and a `0x01` signature.
pub open spec fn spec_entry(s: Seq<u8>, p: int) -> Option<(EntryModel, int)> {
    if !byte_at(s, p, 0x77) {
        None
    } else {
        match spec_string(s, p + 1) {
            None => None,
            Some((object_name, pos1)) => match spec_opt_unsigned(s, pos1) {
                None => None,
                Some((status, pos2)) => match spec_string(s, pos2) {
                    None => None,
                    Some((value_time, pos3)) => match spec_opt_unsigned(s, pos3) {
                        None => None,
                        Some((unit, pos4)) => match spec_opt_signed(s, pos4) {
                            None => None,
                            Some((scaler, pos5)) => match spec_value(s, pos5) {
                                None => None,
                                Some((value, pos6)) => if byte_at(s, pos6, 0x01) {
                                    Some(
                                        (
                                            EntryModel {
                                                object_name,
                                                status,
                                                value_time,
                                                unit,
                                                scaler,
                                                value,
                                            },
                                            pos6 + 1,
                                        ),
                                    )
                                } else {
                                    None
                                },
                            },
                        },
                    },
                },
            },
        }
    }
}

/// `k` list entries, one after the other.
pub open spec fn spec_entries(s: Seq<u8>, p: int, k: nat) -> Option<(Seq<EntryModel>, int)>
    decreases k,
{
    if k == 0 {
        Some((Seq::empty(), p))
    } else {
        match spec_entries(s, p, (k - 1) as nat) {
            None => None,
            Some((es, q)) => match spec_entry(s, q) {
                None => None,
                Some((e, r)) => Some((es.push(e), r)),
            },
        }
    }
}

/// The value list: a prefix `0x71..=0x7F` giving the count `prefix - 0x70`,
/// then that many entries.
pub open spec fn spec_value_list(s: Seq<u8>, p: int) -> Option<(Seq<EntryModel>, int)> {
    if 0 <= p < s.len() && 0x71 <= s[p] <= 0x7f {
        spec_entries(s, p + 1, (s[p] - 0x70) as nat)
    } else {
        None
    }
}

proof fn lemma_entries_none(s: Seq<u8>, p: int, i: nat, j: nat)
    requires
        i <= j,
        spec_entries(s, p, i) is None,
    ensures
        spec_entries(s, p, j) is None,
    decreases j,
{
    if i < j {
        lemma_entries_none(s, p, i, (j - 1) as nat);
    }
}

fn parse_entry(s: &[u8], p: usize) -> (r: Option<(SmlListEntry, usize)>)
    ensures
        match r {
            Some((v, q)) => spec_entry(s@, p as int) == Some((v@, q as int)),
            None => spec_entry(s@, p as int) is None,
        },
{
    if !(p < s.len() && s[p] == 0x77) {
        return None;
    }
    let (object_name, pos1) = match parse_string(s, p + 1) {
        Some(x) => x,
        None => return None,
    };
    let (status, pos2) = match parse_opt_unsigned(s, pos1) {
        Some(x) => x,
        None => return None,
    };
    let (value_time, pos3) = match parse_string(s, pos2) {
        Some(x) => x,
        None => return None,
    };
    let (unit, pos4) = match parse_opt_unsigned(s, pos3) {
        Some(x) => x,
        None => return None,
    };
    let (scaler, pos5) = match parse_opt_signed(s, pos4) {
        Some(x) => x,
        None => return None,
    };
    let (value, pos6) = match parse_value(s, pos5) {
        Some(x) => x,
        None => return None,
    };
    if pos6 < s.len() && s[pos6] == 0x01 {
        Some((SmlListEntry { object_name, status, value_time, unit, scaler, value }, pos6 + 1))
    } else {
        None
    }
}

fn parse_value_list(s: &[u8], p: usize) -> (r: Option<(Vec<SmlListEntry>, usize)>)
    ensures
        match r {
            Some((v, q)) => spec_value_list(s@, p as int) == Some((entries_view(v@), q as int)),
            None => spec_value_list(s@, p as int) is None,
        },
{
    if !(p < s.len() && 0x71 <= s[p] && s[p] <= 0x7f) {
        return None;
    }
    let k = (s[p] - 0x70) as usize;
    let mut out: Vec<SmlListEntry> = Vec::new();
    let mut pos: usize = p + 1;
    let mut i: usize = 0;
    while i < k
        invariant
            i <= k,
            k == s@[p as int] - 0x70,
            spec_entries(s@, p + 1, i as nat) == Some((entries_view(out@), pos as int)),
        decreases k - i,
    {
        match parse_entry(s, pos) {
            Some((e, q)) => {
                proof {
                    assert(entries_view(out@.push(e)) =~= entries_view(out@).push(e@));
                }
                out.push(e);
                pos = q;
                i = i + 1;
            },
            None => {
                proof {
                    lemma_entries_none(s@, p + 1, (i + 1) as nat, k as nat);
                }
                return None;
            },
        }
    }
    Some((out, pos))
}

/// `0x72 0x63 x 0x01 y`: a message body of the kind that `x` and `y` name.
pub open spec fn body_head(s: Seq<u8>, p: int, x: u8, y: u8) -> bool {
    byte_at(s, p, 0x72) && byte_at(s, p + 1, 0x63) && byte_at(s, p + 2, x) && byte_at(s, p + 3, 0x01)
        && byte_at(s, p + 4, y)
}

/// The content of a `GetOpenResponse`: codepage and client id absent, the
/// request file id, the server id, reference time and version absent.
pub open spec fn spec_open_body(s: Seq<u8>, p: int) -> Option<(OpenModel, int)> {
    if byte_at(s, p, 0x01) && byte_at(s, p + 1, 0x01) {
        match spec_string(s, p + 2) {
            None => None,
            Some((req_file_id, pos1)) => match spec_string(s, pos1) {
                None => None,
                Some((server_id, pos2)) => if byte_at(s, pos2, 0x01) && byte_at(s, pos2 + 1, 0x01) {
                    Some((OpenModel { server_id, req_file_id }, pos2 + 2))
                } else {
                    None
                },
            },
        }
    } else {
        None
    }
}

/// The fixed-shape sensor-time prefix of a list response,
/// `0x72 0x62 ? 0x65 ? ? ? ?`, which is skipped.
pub open spec fn sensor_time_at(s: Seq<u8>, p: int) -> bool {
    byte_at(s, p, 0x72) && byte_at(s, p + 1, 0x62) && byte_at(s, p + 3, 0x65) && 0 <= p + 7 < s.len()
}

/// The content of a `GetListResponse`: client id absent, server id, list
/// name, sensor time, value list, signature absent, and an optional `0x01`
/// for the gateway time.
pub open spec fn spec_list_body(s: Seq<u8>, p: int) -> Option<(ListModel, int)> {
    if byte_at(s, p, 0x01) {
        match spec_string(s, p + 1) {
            None => None,
            Some((server_id, pos1)) => match spec_string(s, pos1) {
                None => None,
                Some((list_name, pos2)) => if sensor_time_at(s, pos2) {
                    match spec_value_list(s, pos2 + 8) {
                        None => None,
                        Some((value_list, pos3)) => if byte_at(s, pos3, 0x01) {
                            Some(
                                (
                                    ListModel { server_id, list_name, value_list },
                                    if byte_at(s, pos3 + 1, 0x01) {
                                        pos3 + 2
                                    } else {
                                        pos3 + 1
                                    },
                                ),
                            )
                        } else {
                            None
                        },
                    }
                } else {
                    None
                },
            },
        }
    } else {
        None
    }
}

/// A message body: an open, list or close response.
pub open spec fn spec_message_body(s: Seq<u8>, p: int) -> Option<(EnvelopeModel, int)> {
    if body_head(s, p, 0x01, 0x76) {
        match spec_open_body(s, p + 5) {
            Some((b, q)) => Some((EnvelopeModel::Open(b), q)),
            None => None,
        }
    } else if body_head(s, p, 0x07, 0x77) {
        match spec_list_body(s, p + 5) {
            Some((b, q)) => Some((EnvelopeModel::List(b), q)),
            None => None,
        }
    } else if body_head(s, p, 0x02, 0x71) && byte_at(s, p + 5, 0x01) {
        Some((EnvelopeModel::Close, p + 6))
    } else {
        None
    }
}

/// A message: `0x76`, transaction id, group number `0x62 ?`, abort flag
/// `0x62 0x00`, body, checksum `0x63 ? ?` and end mark `0x00`.
pub open spec fn spec_envelope(s: Seq<u8>, p: int) -> Option<(EnvelopeModel, int)> {
    if byte_at(s, p, 0x76) {
        match spec_string(s, p + 1) {
            None => None,
            Some((_, q)) => if byte_at(s, q, 0x62) && byte_at(s, q + 2, 0x62) && byte_at(s, q + 3, 0x00) {
                match spec_message_body(s, q + 4) {
                    None => None,
                    Some((e, r)) => if byte_at(s, r, 0x63) && byte_at(s, r + 3, 0x00) {
                        Some((e, r + 4))
                    } else {
                        None
                    },
                }
            } else {
                None
            },
        }
    } else {
        None
    }
}

/// The escape sequence and end mark `1B 1B 1B 1B 1A`, then three bytes of
/// padding count and checksum, which end the input.
pub open spec fn footer_at(s: Seq<u8>, p: int) -> bool {
    p + 8 == s.len() && byte_at(s, p, 0x1b) && byte_at(s, p + 1, 0x1b) && byte_at(s, p + 2, 0x1b)
        && byte_at(s, p + 3, 0x1b) && byte_at(s, p + 4, 0x1a)
}

/// The escape sequence and start mark `1B 1B 1B 1B 01 01 01 01`.
pub open spec fn header_at(s: Seq<u8>, p: int) -> bool {
    byte_at(s, p, 0x1b) && byte_at(s, p + 1, 0x1b) && byte_at(s, p + 2, 0x1b) && byte_at(s, p + 3, 0x1b)
        && byte_at(s, p + 4, 0x01) && byte_at(s, p + 5, 0x01) && byte_at(s, p + 6, 0x01)
        && byte_at(s, p + 7, 0x01)
}

/// Messages from `p` for as long as one can be read, then the end of input,
/// or the footer where `footer` is set.
pub open spec fn spec_run(s: Seq<u8>, p: int, footer: bool) -> Option<Seq<EnvelopeModel>>
    decreases s.len() - p,
{
    match spec_envelope(s, p) {
        Some((e, q)) => if p < q <= s.len() {
            match spec_run(s, q, footer) {
                Some(rest) => Some(seq![e] + rest),
                None => None,
            }
        } else {
            None
        },
        None => if (footer && footer_at(s, p)) || (!footer && p == s.len()) {
            Some(Seq::empty())
        } else {
            None
        },
    }
}

/// The messages of a body without header and footer.
pub open spec fn spec_body(s: Seq<u8>) -> Option<Seq<EnvelopeModel>> {
    spec_run(s, 0, false)
}

/// The messages of a whole transmission, between header and footer.
pub open spec fn spec_transmission(s: Seq<u8>) -> Option<Seq<EnvelopeModel>> {
    if header_at(s, 0) {
        spec_run(s, 8, true)
    } else {
        None
    }
}

fn at(s: &[u8], p: usize, b: u8) -> (r: bool)
    ensures
        r == byte_at(s@, p as int, b),
        s@.len() <= usize::MAX,
{
    p < s.len() && s[p] == b
}

fn at_body_head(s: &[u8], p: usize, x: u8, y: u8) -> (r: bool)
    ensures
        r == body_head(s@, p as int, x, y),
        s@.len() <= usize::MAX,
{
    p < s.len() && s.len() - p >= 5 && s[p] == 0x72 && s[p + 1] == 0x63 && s[p + 2] == x && s[p + 3]
        == 0x01 && s[p + 4] == y
}

fn parse_open_body(s: &[u8], p: usize) -> (r: Option<(GetOpenResponseBody, usize)>)
    ensures
        match r {
            Some((v, q)) => spec_open_body(s@, p as int) == Some((v@, q as int)),
            None => spec_open_body(s@, p as int) is None,
        },
{
    if !(at(s, p, 0x01) && at(s, p + 1, 0x01)) {
        return None;
    }
    let (req_file_id, pos1) = match parse_string(s, p + 2) {
        Some(x) => x,
        None => return None,
    };
    let (server_id, pos2) = match parse_string(s, pos1) {
        Some(x) => x,
        None => return None,
    };
    if at(s, pos2, 0x01) && pos2 < s.len() && at(s, pos2 + 1, 0x01) {
        Some((GetOpenResponseBody { server_id, req_file_id }, pos2 + 2))
    } else {
        None
    }
}

fn parse_list_body(s: &[u8], p: usize) -> (r: Option<(GetListResponseBody, usize)>)
    ensures
        match r {
            Some((v, q)) => spec_list_body(s@, p as int) == Some((v@, q as int)),
            None => spec_list_body(s@, p as int) is None,
        },
{
    if !at(s, p, 0x01) {
        return None;
    }
    let (server_id, pos1) = match parse_string(s, p + 1) {
        Some(x) => x,
        None => return None,
    };
    let (list_name, pos2) = match parse_string(s, pos1) {
        Some(x) => x,
        None => return None,
    };
    if !(pos2 < s.len() && s.len() - pos2 >= 8 && s[pos2] == 0x72 && s[pos2 + 1] == 0x62 && s[pos2 + 3] == 0x65) {
        return None;
    }
    let (value_list, pos3) = match parse_value_list(s, pos2 + 8) {
        Some(x) => x,
        None => return None,
    };
    if !at(s, pos3, 0x01) {
        return None;
    }
    let end = if at(s, pos3 + 1, 0x01) {
        pos3 + 2
    } else {
        pos3 + 1
    };
    Some((GetListResponseBody { server_id, list_name, value_list }, end))
}

fn parse_message_body(s: &[u8], p: usize) -> (r: Option<(SmlMessageEnvelope, usize)>)
    ensures
        match r {
            Some((v, q)) => spec_message_body(s@, p as int) == Some((v@, q as int)),
            None => spec_message_body(s@, p as int) is None,
        },
{
    if at_body_head(s, p, 0x01, 0x76) {
        match parse_open_body(s, p + 5) {
            Some((b, q)) => Some((SmlMessageEnvelope::GetOpenResponse(b), q)),
            None => None,
        }
    } else if at_body_head(s, p, 0x07, 0x77) {
        match parse_list_body(s, p + 5) {
            Some((b, q)) => Some((SmlMessageEnvelope::GetListResponse(b), q)),
            None => None,
        }
    } else if at_body_head(s, p, 0x02, 0x71) && at(s, p + 5, 0x01) {
        Some((SmlMessageEnvelope::GetCloseResponse, p + 6))
    } else {
        None
    }
}

fn parse_envelope(s: &[u8], p: usize) -> (r: Option<(SmlMessageEnvelope, usize)>)
    ensures
        match r {
            Some((v, q)) => spec_envelope(s@, p as int) == Some((v@, q as int)),
            None => spec_envelope(s@, p as int) is None,
        },
{
    if !at(s, p, 0x76) {
        return None;
    }
    let q = match parse_string(s, p + 1) {
        Some((_, q)) => q,
        None => return None,
    };
    if !(q < s.len() && s.len() - q >= 4 && s[q] == 0x62 && s[q + 2] == 0x62 && s[q + 3] == 0x00) {
        return None;
    }
    let (e, r) = match parse_message_body(s, q + 4) {
        Some(x) => x,
        None => return None,
    };
    if r < s.len() && s.len() - r >= 4 && s[r] == 0x63 && s[r + 3] == 0x00 {
        Some((e, r + 4))
    } else {
        None
    }
}

fn parse_run(s: &[u8], start: usize, footer: bool) -> (r: ParseResult<SmlMessages>)
    requires
        start <= s@.len(),
    ensures
        match r {
            Ok(m) => spec_run(s@, start as int, footer) == Some(m@),
            Err(_) => spec_run(s@, start as int, footer) is None,
        },
{
    let mut out: Vec<SmlMessageEnvelope> = Vec::new();
    let mut pos: usize = start;
    loop
        invariant
            start <= pos <= s@.len(),
            match spec_run(s@, pos as int, footer) {
                Some(rest) => spec_run(s@, start as int, footer) == Some(envelopes_view(out@) + rest),
                None => spec_run(s@, start as int, footer) is None,
            },
        decreases s@.len() - pos,
    {
        match parse_envelope(s, pos) {
            Some((e, q)) => {
                if !(pos < q && q <= s.len()) {
                    return Err(ParseError::Unknown);
                }
                proof {
                    assert(envelopes_view(out@.push(e)) =~= envelopes_view(out@).push(e@));
                    match spec_run(s@, q as int, footer) {
                        Some(rest) => {
                            assert(envelopes_view(out@) + (seq![e@] + rest) =~= envelopes_view(
                                out@.push(e),
                            ) + rest);
                        },
                        None => {},
                    }
                }
                out.push(e);
                pos = q;
            },
            None => {
                let done = if footer {
                    s.len() - pos == 8 && s[pos] == 0x1b && s[pos + 1] == 0x1b && s[pos + 2] == 0x1b
                        && s[pos + 3] == 0x1b && s[pos + 4] == 0x1a
                } else {
                    pos == s.len()
                };
                if done {
                    proof {
                        assert(envelopes_view(out@) + Seq::<EnvelopeModel>::empty() =~= envelopes_view(
                            out@,
                        ));
                    }
                    return Ok(SmlMessages { messages: out });
                } else {
                    return Err(ParseError::Unknown);
                }
            },
        }
    }
}

/// Parses the body of an SML transmission: its messages, without header and
/// footer, up to the end of the input.
pub fn parse_body(input: &[u8]) -> (r: ParseResult<SmlMessages>)
    ensures
        match r {
            Ok(m) => spec_body(input@) == Some(m@),
            Err(_) => spec_body(input@) is None,
        },
{
    parse_run(input, 0, false)
}

/// Parses a whole SML transmission: header, messages and footer.
pub fn parse_message(input: &[u8]) -> (r: ParseResult<SmlMessages>)
    ensures
        match r {
            Ok(m) => spec_transmission(input@) == Some(m@),
            Err(_) => spec_transmission(input@) is None,
        },
{
    if input.len() >= 8 && input[0] == 0x1b && input[1] == 0x1b && input[2] == 0x1b && input[3] == 0x1b
        && input[4] == 0x01 && input[5] == 0x01 && input[6] == 0x01 && input[7] == 0x01 {
        parse_run(input, 8, true)
    } else {
        Err(ParseError::Unknown)
    }
}

/// Parses the whole of `input` as one signed integer.
pub fn parse_signed(input: &[u8]) -> (r: ParseResult<i64>)
    ensures
        match r {
            Ok(v) => spec_signed(input@, 0) == Some((v as int, input@.len() as int)),
            Err(_) => !(spec_signed(input@, 0) matches Some((_, q)) && q == input@.len()),
        },
{
    match parse_signed_at(input, 0) {
        Some((v, q)) => if q == input.len() {
            Ok(v)
        } else {
            Err(ParseError::Unknown)
        },
        None => Err(ParseError::Unknown),
    }
}

/// Parses the whole of `input` as one unsigned integer.
pub fn parse_unsigned(input: &[u8]) -> (r: ParseResult<u64>)
    ensures
        match r {
            Ok(v) => spec_unsigned(input@, 0) == Some((v as int, input@.len() as int)),
            Err(_) => !(spec_unsigned(input@, 0) matches Some((_, q)) && q == input@.len()),
        },
{
    match parse_unsigned_at(input, 0) {
        Some((v, q)) => if q == input.len() {
            Ok(v)
        } else {
            Err(ParseError::Unknown)
        },
        None => Err(ParseError::Unknown),
    }
}

/// `n` lies in the range of `len`-byte two's-complement integers.
pub open spec fn fits_signed(n: int, len: nat) -> bool {
    len >= 1 && -128 * pow256((len - 1) as nat) <= n < 128 * pow256((len - 1) as nat)
}

/// The fewest bytes, at least `len` and at most eight, that hold `n`.
pub open spec fn signed_len_from(n: int, len: nat) -> nat
    decreases 8 - len,
{
    if len >= 8 || fits_signed(n, len) {
        len
    } else {
        signed_len_from(n, len + 1)
    }
}

/// The `len` low-order bytes of `x`, big-endian.
pub open spec fn be_bytes(x: int, len: nat) -> Seq<u8>
    decreases len,
{
    if len == 0 {
        Seq::empty()
    } else {
        be_bytes(x / 256, (len - 1) as nat).push((x % 256) as u8)
    }
}

/// The SML encoding of a signed integer with the shortest prefix.
pub open spec fn signed_encoding(n: int) -> Seq<u8> {
    let len = signed_len_from(n, 1);
    let x = if n >= 0 {
        n
    } else {
        n + pow256(len)
    };
    seq![(0x51 + len) as u8] + be_bytes(x, len)
}

proof fn lemma_be_bytes(x: int, len: nat)
    requires
        0 <= x < pow256(len),
    ensures
        be_bytes(x, len).len() == len,
        be_unsigned(be_bytes(x, len)) == x,
    decreases len,
{
    if len > 0 {
        let p = pow256((len - 1) as nat);
        lemma_pow256_pos((len - 1) as nat);
        vstd::arithmetic::div_mod::lemma_fundamental_div_mod(x, 256);
        vstd::arithmetic::div_mod::lemma_multiply_divide_lt(x, 256, p);
        assert(0 <= x / 256);
        lemma_be_bytes(x / 256, (len - 1) as nat);
        lemma_be_unsigned_push(be_bytes(x / 256, (len - 1) as nat), (x % 256) as u8);
    } else {
        assert(x == 0);
    }
}

proof fn lemma_signed_len(n: int, len: nat)
    requires
        1 <= len <= 7,
        fits_signed(n, 7),
    ensures
        1 <= len <= signed_len_from(n, len) <= 7,
        fits_signed(n, signed_len_from(n, len)),
    decreases 8 - len,
{
    if !fits_signed(n, len) && len < 7 {
        lemma_signed_len(n, len + 1);
    }
}

/// Every integer in `[-2^55, 2^55)`, encoded as an SML signed integer with the
/// shortest prefix, decodes to itself.
pub proof fn lemma_signed_round_trip(n: int)
    requires
        -0x80_0000_0000_0000 <= n < 0x80_0000_0000_0000,
    ensures
        spec_signed(signed_encoding(n), 0) == Some((n, signed_encoding(n).len() as int)),
{
    lemma_pow256_values();
    reveal_with_fuel(pow256, 8);
    let len = signed_len_from(n, 1);
    lemma_signed_len(n, 1);
    let p = pow256((len - 1) as nat);
    lemma_pow256_pos((len - 1) as nat);
    assert(pow256(len) == 256 * p);
    let x = if n >= 0 {
        n
    } else {
        n + pow256(len)
    };
    lemma_be_bytes(x, len);
    let d = be_bytes(x, len);
    let s = signed_encoding(n);
    assert(s.subrange(1, 1 + len as int) =~= d);
    lemma_be_unsigned_bounds(d);
    if n >= 0 {
        assert(d[0] < 128) by (nonlinear_arith)
            requires
                d[0] * p <= x,
                x < 128 * p,
                p >= 1,
        ;
    } else {
        assert(d[0] >= 128) by (nonlinear_arith)
            requires
                x < (d[0] + 1) * p,
                x >= 128 * p,
                p >= 1,
        ;
    }
}

/// A list response up to its one value: no transaction id, server id or list
/// name, a zero sensor time, one entry named 1-0:16.7.0*255 with no status,
/// time, unit or scaler.
pub open spec fn power_list_head() -> Seq<u8> {
    seq![
        0x76u8, 0x01, 0x62, 0x00, 0x62, 0x00, 0x72, 0x63, 0x07, 0x01, 0x77, 0x01, 0x01, 0x01,
        0x72, 0x62, 0x00, 0x65, 0x00, 0x00, 0x00, 0x00, 0x71, 0x77, 0x07, 0x01, 0x00, 0x10,
        0x07, 0x00, 0xff, 0x01, 0x01, 0x01, 0x01,
    ]
}

/// The rest of that list response after its value: value, list and gateway
/// fields absent, checksum and end mark.
pub open spec fn power_list_tail() -> Seq<u8> {
    seq![0x01u8, 0x01, 0x01, 0x63, 0x00, 0x00, 0x00]
}

/// Every integer in `[-2^55, 2^55)`, encoded with the shortest prefix as the
/// value of a list response, is read back as that integer.
pub proof fn lemma_signed_round_trip_in_body(n: int)
    requires
        -0x80_0000_0000_0000 <= n < 0x80_0000_0000_0000,
    ensures
        spec_body(power_list_head() + signed_encoding(n) + power_list_tail()) == Some(
            seq![
                EnvelopeModel::List(
                    ListModel {
                        server_id: Seq::empty(),
                        list_name: Seq::empty(),
                        value_list: seq![
                            EntryModel {
                                object_name: seq![1u8, 0, 16, 7, 0, 255],
                                status: None,
                                value_time: Seq::empty(),
                                unit: None,
                                scaler: None,
                                value: ValueModel::Signed(n),
                            },
                        ],
                    },
                ),
            ],
        ),
{
    let pre = power_list_head();
    let suf = power_list_tail();
    let e = signed_encoding(n);
    lemma_signed_round_trip(n);
    let el = e.len() as int;
    assert(0x52 <= e[0] <= 0x59);
    assert(el == 1 + (e[0] - 0x51));
    let s = pre + e + suf;
    assert(pre.len() == 35);
    assert(s.len() == 42 + el);
    assert forall|i: int| 0 <= i < 35 implies #[trigger] s[i] == pre[i] by {}
    assert forall|i: int| 0 <= i < 7 implies #[trigger] s[35 + el + i] == suf[i] by {}
    assert(s.subrange(35, 35 + el) =~= e);
    assert(s[35] == e[0]);
    assert(s.subrange(36, 35 + el) =~= e.subrange(1, el));
    assert(spec_signed(s, 35) == Some((n, 35 + el)));
    assert(spec_string(s, 35) is None);
    assert(spec_value(s, 35) == Some((ValueModel::Signed(n), 35 + el)));
    assert(s[34] == 0x01);
    assert(spec_signed(s, 34) is None);
    assert(spec_opt_signed(s, 34) == Some((None::<int>, 35int)));
    assert(s[33] == 0x01);
    assert(spec_unsigned(s, 33) is None);
    assert(spec_opt_unsigned(s, 33) == Some((None::<int>, 34int)));
    assert(s[32] == 0x01);
    assert(s.subrange(33, 33) =~= Seq::<u8>::empty());
    assert(spec_string(s, 32) == Some((Seq::<u8>::empty(), 33int)));
    assert(s[31] == 0x01);
    assert(spec_unsigned(s, 31) is None);
    assert(spec_opt_unsigned(s, 31) == Some((None::<int>, 32int)));
    assert(s[24] == 0x07);
    assert(s.subrange(25, 31) =~= seq![1u8, 0, 16, 7, 0, 255]);
    assert(spec_string(s, 24) == Some((seq![1u8, 0, 16, 7, 0, 255], 31int)));
    assert(s[23] == 0x77);
    assert(s[35 + el] == 0x01);
    let entry = EntryModel {
        object_name: seq![1u8, 0, 16, 7, 0, 255],
        status: None,
        value_time: Seq::empty(),
        unit: None,
        scaler: None,
        value: ValueModel::Signed(n),
    };
    assert(spec_entry(s, 23) == Some((entry, 36 + el)));
    assert(spec_entries(s, 23, 0) == Some((Seq::<EntryModel>::empty(), 23int)));
    assert(Seq::<EntryModel>::empty().push(entry) =~= seq![entry]);
    assert(spec_entries(s, 23, 1) == Some((seq![entry], 36 + el)));
    assert(s[22] == 0x71);
    assert(spec_value_list(s, 22) == Some((seq![entry], 36 + el)));
    assert(s[14] == 0x72 && s[15] == 0x62 && s[17] == 0x65);
    assert(sensor_time_at(s, 14));
    assert(s[12] == 0x01 && s[13] == 0x01);
    assert(s.subrange(13, 13) =~= Seq::<u8>::empty());
    assert(s.subrange(14, 14) =~= Seq::<u8>::empty());
    assert(spec_string(s, 12) == Some((Seq::<u8>::empty(), 13int)));
    assert(spec_string(s, 13) == Some((Seq::<u8>::empty(), 14int)));
    assert(s[11] == 0x01);
    assert(s[36 + el] == 0x01 && s[37 + el] == 0x01);
    let list = ListModel { server_id: Seq::empty(), list_name: Seq::empty(), value_list: seq![entry] };
    assert(spec_list_body(s, 11) == Some((list, 38 + el)));
    assert(s[6] == 0x72 && s[7] == 0x63 && s[8] == 0x07 && s[9] == 0x01 && s[10] == 0x77);
    assert(!body_head(s, 6, 0x01, 0x76));
    assert(body_head(s, 6, 0x07, 0x77));
    assert(spec_message_body(s, 6) == Some((EnvelopeModel::List(list), 38 + el)));
    assert(s[0] == 0x76 && s[1] == 0x01 && s[2] == 0x62 && s[4] == 0x62 && s[5] == 0x00);
    assert(s.subrange(2, 2) =~= Seq::<u8>::empty());
    assert(spec_string(s, 1) == Some((Seq::<u8>::empty(), 2int)));
    assert(s[38 + el] == 0x63 && s[41 + el] == 0x00);
    assert(spec_envelope(s, 0) == Some((EnvelopeModel::List(list), 42 + el)));
    assert(spec_envelope(s, 42 + el) is None);
    assert(spec_run(s, 42 + el, false) == Some(Seq::<EnvelopeModel>::empty()));
    assert(seq![EnvelopeModel::List(list)] + Seq::<EnvelopeModel>::empty() =~= seq![EnvelopeModel::List(list)]);
}

} // verus!
