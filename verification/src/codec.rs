//! The durable encoding of session descriptors.
//!
//! A persisted workspace payload is a sequence of characters: integers are
//! eight base-256 digits, little-endian, each digit one character; a
//! string is its character count followed by its characters; options,
//! lists and the status tag follow from those. Decoding is the exact
//! inverse of encoding ([`lemma_round_trip_configs`]), so a restored
//! workspace is precisely the descriptor list that was persisted.

use vstd::prelude::*;

use vstd::arithmetic::div_mod::{lemma_fundamental_div_mod, lemma_multiply_divide_lt};

use crate::errors::TerminalError;
use crate::session::{ConfigView, TerminalConfig, TerminalStatus};

verus! {

/// 256 to the `k`th power: the number of values `k` base-256 digits can
/// carry.
pub open spec fn pow256(k: nat) -> nat
    decreases k,
{
    if k == 0 {
        1
    } else {
        256 * pow256((k - 1) as nat)
    }
}

/// A number below `pow256(k)` as `k` base-256 digits, little-endian, one
/// character per digit.
pub open spec fn enc_nat(n: nat, k: nat) -> Seq<char>
    decreases k,
{
    if k == 0 {
        Seq::empty()
    } else {
        seq![((n % 256) as u8) as char] + enc_nat(n / 256, (k - 1) as nat)
    }
}

/// Reads `k` base-256 digits from the front of the stream: the number they
/// carry and the rest of the stream, or nothing when the stream is too
/// short or holds a character that is no digit.
pub open spec fn dec_nat(s: Seq<char>, k: nat) -> Option<(nat, Seq<char>)>
    decreases k,
{
    if k == 0 {
        Some((0, s))
    } else if s.len() == 0 || (s[0] as u32) >= 256 {
        None
    } else {
        match dec_nat(s.drop_first(), (k - 1) as nat) {
            Some(p) => Some((p.0 * 256 + ((s[0] as u32) as nat), p.1)),
            None => None,
        }
    }
}

/// Whatever `dec_nat` reads from `k` digits is below `pow256(k)`.
pub proof fn lemma_dec_nat_bound(s: Seq<char>, k: nat)
    ensures
        dec_nat(s, k) matches Some(p) ==> p.0 < pow256(k),
    decreases k,
{
    if k > 0 && s.len() > 0 && (s[0] as u32) < 256 {
        lemma_dec_nat_bound(s.drop_first(), (k - 1) as nat);
        if let Some(p) = dec_nat(s.drop_first(), (k - 1) as nat) {
            assert(p.0 * 256 + ((s[0] as u32) as nat) < 256 * pow256((k - 1) as nat))
                by (nonlinear_arith)
                requires
                    p.0 < pow256((k - 1) as nat),
                    ((s[0] as u32) as nat) < 256,
            ;
        }
    }
}

/// Reading `k` digits off an encoding of `n` (below `pow256(k)`) yields
/// `n` and leaves exactly the tail.
pub proof fn lemma_round_trip_nat(n: nat, k: nat, tail: Seq<char>)
    requires
        n < pow256(k),
    ensures
        dec_nat(enc_nat(n, k) + tail, k) == Some((n, tail)),
    decreases k,
{
    if k == 0 {
        assert(enc_nat(n, k) + tail =~= tail);
    } else {
        let digit = n % 256;
        let c = ((digit as u8) as char);
        let s = enc_nat(n, k) + tail;
        assert(s[0] == c);
        assert(c as nat == digit);
        assert((c as u32) as nat == digit);
        assert(s.drop_first() =~= enc_nat(n / 256, (k - 1) as nat) + tail);
        assert(n / 256 < pow256((k - 1) as nat)) by {
            lemma_multiply_divide_lt(n as int, 256, pow256((k - 1) as nat) as int);
        }
        lemma_round_trip_nat(n / 256, (k - 1) as nat, tail);
        assert((n / 256) * 256 + n % 256 == n) by {
            lemma_fundamental_div_mod(n as int, 256);
        }
    }
}

/// The encoding of a 64-bit number: eight base-256 digits.
pub open spec fn enc_u64(n: u64) -> Seq<char> {
    enc_nat(n as nat, 8)
}

/// `pow256(8)` is exactly the count of 64-bit values.
pub proof fn lemma_pow256_8()
    ensures
        pow256(8) == 0x1_0000_0000_0000_0000,
{
    reveal_with_fuel(pow256, 9);
}

/// Appends the eight-digit encoding of `n`.
pub fn push_u64(out: &mut Vec<char>, n: u64)
    ensures
        final(out)@ == old(out)@ + enc_u64(n),
{
    proof {
        lemma_pow256_8();
    }
    let mut m: u64 = n;
    let mut k: usize = 0;
    while k < 8
        invariant
            k <= 8,
            (m as nat) < pow256((8 - k) as nat),
            old(out)@ + enc_nat(n as nat, 8) =~= out@ + enc_nat(m as nat, (8 - k) as nat),
        decreases 8 - k,
    {
        let digit: u64 = m % 256;
        let c: char = (digit as u8) as char;
        let ghost prev = out@;
        let ghost mprev = m as nat;
        out.push(c);
        proof {
            assert(enc_nat(mprev, (8 - k) as nat) == seq![c] + enc_nat(
                mprev / 256,
                (8 - (k + 1)) as nat,
            ));
            assert(prev + enc_nat(mprev, (8 - k) as nat) =~= out@ + enc_nat(
                mprev / 256,
                (8 - (k + 1)) as nat,
            ));
            assert(mprev / 256 < pow256((8 - (k + 1)) as nat)) by {
                lemma_multiply_divide_lt(
                    mprev as int,
                    256,
                    pow256((8 - (k + 1)) as nat) as int,
                );
            }
        }
        m = m / 256;
        k = k + 1;
    }
    proof {
        assert(enc_nat(m as nat, 0) =~= Seq::<char>::empty());
        assert(old(out)@ + enc_nat(n as nat, 8) =~= out@);
    }
}

/// Reads eight base-256 digits at `pos`: the 64-bit number they carry and
/// the position after them, exactly as [`dec_nat`] reads the stream from
/// `pos`.
pub fn read_u64(data: &[char], pos: usize) -> (r: Option<(u64, usize)>)
    requires
        pos <= data@.len(),
    ensures
        r matches Some(q) ==> ({
            &&& pos <= q.1 <= data@.len()
            &&& dec_nat(data@.skip(pos as int), 8) == Some((q.0 as nat, data@.skip(q.1 as int)))
        }),
        r is None ==> dec_nat(data@.skip(pos as int), 8) is None,
{
    proof {
        lemma_pow256_8();
    }
    read_digits(data, pos, 8)
}

/// Reads `k` base-256 digits at `pos`, mirroring [`dec_nat`].
fn read_digits(data: &[char], pos: usize, k: usize) -> (r: Option<(u64, usize)>)
    requires
        pos <= data@.len(),
        k <= 8,
    ensures
        r matches Some(q) ==> ({
            &&& pos <= q.1 <= data@.len()
            &&& dec_nat(data@.skip(pos as int), k as nat) == Some(
                (q.0 as nat, data@.skip(q.1 as int)),
            )
        }),
        r is None ==> dec_nat(data@.skip(pos as int), k as nat) is None,
    decreases k,
{
    let ghost s = data@.skip(pos as int);
    if k == 0 {
        return Some((0, pos));
    }
    if pos >= data.len() {
        return None;
    }
    let b: u32 = data[pos] as u32;
    proof {
        assert(s.len() > 0);
        assert(s[0] == data@[pos as int]);
        assert(data@.skip(pos + 1 as int) =~= s.drop_first());
    }
    if b >= 256 {
        return None;
    }
    match read_digits(data, pos + 1, k - 1) {
        Some(q) => {
            proof {
                lemma_dec_nat_bound(data@.skip(pos + 1 as int), (k - 1) as nat);
                assert((q.0 as nat) < pow256((k - 1) as nat));
                assert(pow256((k - 1) as nat) * 256 <= pow256(8)) by {
                    lemma_pow256_monotone((k - 1) as nat);
                }
                lemma_pow256_8();
                assert((q.0 as nat) * 256 + (b as nat) < 0x1_0000_0000_0000_0000) by (nonlinear_arith)
                    requires
                        (q.0 as nat) < pow256((k - 1) as nat),
                        pow256((k - 1) as nat) * 256 <= 0x1_0000_0000_0000_0000,
                        (b as nat) < 256,
                ;
            }
            let value: u64 = q.0 * 256 + (b as u64);
            Some((value, q.1))
        },
        None => None,
    }
}

/// `pow256(k) * 256` never exceeds `pow256(8)` while `k` is below 8.
proof fn lemma_pow256_monotone(k: nat)
    requires
        k < 8,
    ensures
        pow256(k) * 256 <= pow256(8),
    decreases 8 - k,
{
    lemma_pow256_pos(k);
    if k == 7 {
        assert(pow256(8) == 256 * pow256(7));
    } else {
        lemma_pow256_monotone(k + 1);
        lemma_pow256_pos(k + 1);
        assert(pow256(k + 1) == 256 * pow256(k));
        assert(pow256(k) * 256 <= pow256(k + 1) * 256) by (nonlinear_arith)
            requires
                pow256(k + 1) == 256 * pow256(k),
                pow256(k) >= 1,
        ;
    }
}

/// Every power of 256 is positive.
proof fn lemma_pow256_pos(k: nat)
    ensures
        pow256(k) >= 1,
    decreases k,
{
    if k > 0 {
        lemma_pow256_pos((k - 1) as nat);
    }
}

/// The encoding of a string: its character count, then its characters.
pub open spec fn enc_str(s: Seq<char>) -> Seq<char> {
    enc_u64(s.len() as u64) + s
}

/// Reads one string off the front of the stream.
pub open spec fn dec_str(s: Seq<char>) -> Option<(Seq<char>, Seq<char>)> {
    match dec_nat(s, 8) {
        Some(p) => if p.1.len() >= p.0 {
            Some((p.1.take(p.0 as int), p.1.skip(p.0 as int)))
        } else {
            None
        },
        None => None,
    }
}

/// Reading a string off its encoding yields the string and leaves the
/// tail.
pub proof fn lemma_round_trip_str(v: Seq<char>, tail: Seq<char>)
    requires
        v.len() <= u64::MAX,
    ensures
        dec_str(enc_str(v) + tail) == Some((v, tail)),
{
    lemma_pow256_8();
    assert(enc_str(v) + tail =~= enc_u64(v.len() as u64) + (v + tail));
    lemma_round_trip_nat(v.len() as nat, 8, v + tail);
    assert((v + tail).take(v.len() as int) =~= v);
    assert((v + tail).skip(v.len() as int) =~= tail);
}

/// The encoding of an optional string: a presence tag, then the string if
/// it is there.
pub open spec fn enc_opt(o: Option<Seq<char>>) -> Seq<char> {
    match o {
        None => seq!['0'],
        Some(v) => seq!['1'] + enc_str(v),
    }
}

/// Reads one optional string off the front of the stream.
pub open spec fn dec_opt(s: Seq<char>) -> Option<(Option<Seq<char>>, Seq<char>)> {
    if s.len() == 0 {
        None
    } else if s[0] == '0' {
        Some((None, s.drop_first()))
    } else if s[0] == '1' {
        match dec_str(s.drop_first()) {
            Some(p) => Some((Some(p.0), p.1)),
            None => None,
        }
    } else {
        None
    }
}

/// Reading an optional string off its encoding yields it and leaves the
/// tail.
pub proof fn lemma_round_trip_opt(o: Option<Seq<char>>, tail: Seq<char>)
    requires
        o matches Some(v) ==> v.len() <= u64::MAX,
    ensures
        dec_opt(enc_opt(o) + tail) == Some((o, tail)),
{
    match o {
        None => {
            assert((enc_opt(o) + tail).drop_first() =~= tail);
        },
        Some(v) => {
            assert((enc_opt(o) + tail).drop_first() =~= enc_str(v) + tail);
            lemma_round_trip_str(v, tail);
        },
    }
}

/// The encodings of the strings of a list, one after another.
pub open spec fn enc_str_items(l: Seq<Seq<char>>) -> Seq<char>
    decreases l.len(),
{
    if l.len() == 0 {
        Seq::empty()
    } else {
        enc_str(l[0]) + enc_str_items(l.drop_first())
    }
}

/// The encoding of a list of strings: its count, then its strings.
pub open spec fn enc_str_list(l: Seq<Seq<char>>) -> Seq<char> {
    enc_u64(l.len() as u64) + enc_str_items(l)
}

/// Reads `count` strings off the front of the stream.
pub open spec fn dec_str_items(s: Seq<char>, count: nat) -> Option<(Seq<Seq<char>>, Seq<char>)>
    decreases count,
{
    if count == 0 {
        Some((Seq::empty(), s))
    } else {
        match dec_str(s) {
            Some(p) => match dec_str_items(p.1, (count - 1) as nat) {
                Some(q) => Some((seq![p.0] + q.0, q.1)),
                None => None,
            },
            None => None,
        }
    }
}

/// Reads one list of strings off the front of the stream.
pub open spec fn dec_str_list(s: Seq<char>) -> Option<(Seq<Seq<char>>, Seq<char>)> {
    match dec_nat(s, 8) {
        Some(p) => dec_str_items(p.1, p.0),
        None => None,
    }
}

/// Every string of the list is encodable.
pub open spec fn strs_encodable(l: Seq<Seq<char>>) -> bool {
    forall|i: int| 0 <= i < l.len() ==> #[trigger] l[i].len() <= u64::MAX
}

/// Reading `count` strings off the encoding of `count` strings yields them
/// and leaves the tail.
pub proof fn lemma_round_trip_str_items(l: Seq<Seq<char>>, tail: Seq<char>)
    requires
        strs_encodable(l),
    ensures
        dec_str_items(enc_str_items(l) + tail, l.len()) == Some((l, tail)),
    decreases l.len(),
{
    if l.len() == 0 {
        assert(enc_str_items(l) + tail =~= tail);
        assert(dec_str_items(tail, 0) == Some((Seq::<Seq<char>>::empty(), tail)));
        assert(Seq::<Seq<char>>::empty() =~= l);
    } else {
        let rest = l.drop_first();
        assert(enc_str_items(l) + tail =~= enc_str(l[0]) + (enc_str_items(rest) + tail));
        lemma_round_trip_str(l[0], enc_str_items(rest) + tail);
        lemma_round_trip_str_items(rest, tail);
        assert(seq![l[0]] + rest =~= l);
    }
}

/// Reading a list of strings off its encoding yields it and leaves the
/// tail.
pub proof fn lemma_round_trip_str_list(l: Seq<Seq<char>>, tail: Seq<char>)
    requires
        strs_encodable(l),
        l.len() <= u64::MAX,
    ensures
        dec_str_list(enc_str_list(l) + tail) == Some((l, tail)),
{
    lemma_pow256_8();
    assert(enc_str_list(l) + tail =~= enc_u64(l.len() as u64) + (enc_str_items(l) + tail));
    lemma_round_trip_nat(l.len() as nat, 8, enc_str_items(l) + tail);
    lemma_round_trip_str_items(l, tail);
}

/// The encodings of the pairs of an association list, one after another:
/// each pair is its name, then its value.
pub open spec fn enc_pair_items(l: Seq<(Seq<char>, Seq<char>)>) -> Seq<char>
    decreases l.len(),
{
    if l.len() == 0 {
        Seq::empty()
    } else {
        enc_str(l[0].0) + enc_str(l[0].1) + enc_pair_items(l.drop_first())
    }
}

/// The encoding of an association list: its count, then its pairs.
pub open spec fn enc_pair_list(l: Seq<(Seq<char>, Seq<char>)>) -> Seq<char> {
    enc_u64(l.len() as u64) + enc_pair_items(l)
}

/// Reads `count` string pairs off the front of the stream.
pub open spec fn dec_pair_items(s: Seq<char>, count: nat) -> Option<
    (Seq<(Seq<char>, Seq<char>)>, Seq<char>),
>
    decreases count,
{
    if count == 0 {
        Some((Seq::empty(), s))
    } else {
        match dec_str(s) {
            Some(p) => match dec_str(p.1) {
                Some(q) => match dec_pair_items(q.1, (count - 1) as nat) {
                    Some(t) => Some((seq![(p.0, q.0)] + t.0, t.1)),
                    None => None,
                },
                None => None,
            },
            None => None,
        }
    }
}

/// Reads one association list off the front of the stream.
pub open spec fn dec_pair_list(s: Seq<char>) -> Option<(Seq<(Seq<char>, Seq<char>)>, Seq<char>)> {
    match dec_nat(s, 8) {
        Some(p) => dec_pair_items(p.1, p.0),
        None => None,
    }
}

/// Every name and value of the association list is encodable.
pub open spec fn pairs_encodable(l: Seq<(Seq<char>, Seq<char>)>) -> bool {
    forall|i: int|
        0 <= i < l.len() ==> (#[trigger] l[i].0.len() <= u64::MAX && l[i].1.len() <= u64::MAX)
}

/// Reading `count` pairs off the encoding of `count` pairs yields them and
/// leaves the tail.
pub proof fn lemma_round_trip_pair_items(l: Seq<(Seq<char>, Seq<char>)>, tail: Seq<char>)
    requires
        pairs_encodable(l),
    ensures
        dec_pair_items(enc_pair_items(l) + tail, l.len()) == Some((l, tail)),
    decreases l.len(),
{
    if l.len() == 0 {
        assert(enc_pair_items(l) + tail =~= tail);
        assert(Seq::<(Seq<char>, Seq<char>)>::empty() =~= l);
    } else {
        let rest = l.drop_first();
        assert(enc_pair_items(l) + tail =~= enc_str(l[0].0) + (enc_str(l[0].1) + (enc_pair_items(
            rest,
        ) + tail)));
        lemma_round_trip_str(l[0].0, enc_str(l[0].1) + (enc_pair_items(rest) + tail));
        lemma_round_trip_str(l[0].1, enc_pair_items(rest) + tail);
        lemma_round_trip_pair_items(rest, tail);
        assert(seq![(l[0].0, l[0].1)] + rest =~= l);
    }
}

/// Reading an association list off its encoding yields it and leaves the
/// tail.
pub proof fn lemma_round_trip_pair_list(l: Seq<(Seq<char>, Seq<char>)>, tail: Seq<char>)
    requires
        pairs_encodable(l),
        l.len() <= u64::MAX,
    ensures
        dec_pair_list(enc_pair_list(l) + tail) == Some((l, tail)),
{
    lemma_pow256_8();
    assert(enc_pair_list(l) + tail =~= enc_u64(l.len() as u64) + (enc_pair_items(l) + tail));
    lemma_round_trip_nat(l.len() as nat, 8, enc_pair_items(l) + tail);
    lemma_round_trip_pair_items(l, tail);
}

/// The tag character of a status.
pub open spec fn status_char(st: TerminalStatus) -> char {
    match st {
        TerminalStatus::Running => 'r',
        TerminalStatus::Idle => 'i',
        TerminalStatus::Error => 'e',
        TerminalStatus::Stopped => 's',
    }
}

/// The encoding of a status: its tag character.
pub open spec fn enc_status(st: TerminalStatus) -> Seq<char> {
    seq![status_char(st)]
}

/// Reads one status tag off the front of the stream.
pub open spec fn dec_status(s: Seq<char>) -> Option<(TerminalStatus, Seq<char>)> {
    if s.len() == 0 {
        None
    } else if s[0] == 'r' {
        Some((TerminalStatus::Running, s.drop_first()))
    } else if s[0] == 'i' {
        Some((TerminalStatus::Idle, s.drop_first()))
    } else if s[0] == 'e' {
        Some((TerminalStatus::Error, s.drop_first()))
    } else if s[0] == 's' {
        Some((TerminalStatus::Stopped, s.drop_first()))
    } else {
        None
    }
}

/// Reading a status off its encoding yields it and leaves the tail.
pub proof fn lemma_round_trip_status(st: TerminalStatus, tail: Seq<char>)
    ensures
        dec_status(enc_status(st) + tail) == Some((st, tail)),
{
    assert((enc_status(st) + tail).drop_first() =~= tail);
}

/// The encoding of a signed timestamp: its 64 bits, as an unsigned number.
pub open spec fn enc_i64(t: i64) -> Seq<char> {
    enc_u64(t as u64)
}

/// Reads one signed timestamp off the front of the stream.
pub open spec fn dec_i64(s: Seq<char>) -> Option<(i64, Seq<char>)> {
    match dec_nat(s, 8) {
        Some(p) => Some(((p.0 as u64) as i64, p.1)),
        None => None,
    }
}

/// Reading a timestamp off its encoding yields it and leaves the tail.
pub proof fn lemma_round_trip_i64(t: i64, tail: Seq<char>)
    ensures
        dec_i64(enc_i64(t) + tail) == Some((t, tail)),
{
    lemma_pow256_8();
    lemma_round_trip_nat((t as u64) as nat, 8, tail);
    assert(((t as u64) as u64) as i64 == t) by (bit_vector);
}

/// The encoding of one descriptor: its fields, one after another.
pub open spec fn enc_config(c: ConfigView) -> Seq<char> {
    enc_str(c.id) + enc_str(c.label) + enc_opt(c.profile_id) + enc_str(c.working_directory)
        + enc_str_list(c.claude_args) + enc_pair_list(c.env_vars) + enc_i64(c.created_at as i64)
        + enc_status(c.status) + enc_opt(c.color_tag) + enc_opt(c.nickname)
}

/// Reads one descriptor off the front of the stream.
pub open spec fn dec_config(s: Seq<char>) -> Option<(ConfigView, Seq<char>)> {
    match dec_str(s) {
        Some(id) => match dec_str(id.1) {
            Some(label) => match dec_opt(label.1) {
                Some(profile) => match dec_str(profile.1) {
                    Some(wd) => match dec_str_list(wd.1) {
                        Some(args) => match dec_pair_list(args.1) {
                            Some(env) => match dec_i64(env.1) {
                                Some(created) => match dec_status(created.1) {
                                    Some(status) => match dec_opt(status.1) {
                                        Some(color) => match dec_opt(color.1) {
                                            Some(nick) => Some(
                                                (
                                                    ConfigView {
                                                        id: id.0,
                                                        label: label.0,
                                                        profile_id: profile.0,
                                                        working_directory: wd.0,
                                                        claude_args: args.0,
                                                        env_vars: env.0,
                                                        created_at: created.0 as int,
                                                        status: status.0,
                                                        color_tag: color.0,
                                                        nickname: nick.0,
                                                    },
                                                    nick.1,
                                                ),
                                            ),
                                            None => None,
                                        },
                                        None => None,
                                    },
                                    None => None,
                                },
                                None => None,
                            },
                            None => None,
                        },
                        None => None,
                    },
                    None => None,
                },
                None => None,
            },
            None => None,
        },
        None => None,
    }
}

/// The descriptor's fields all fit the encoding's counters: every string
/// is below the 64-bit bound, and the timestamp fits 64 signed bits.
pub open spec fn config_encodable(c: ConfigView) -> bool {
    &&& c.id.len() <= u64::MAX
    &&& c.label.len() <= u64::MAX
    &&& (c.profile_id matches Some(v) ==> v.len() <= u64::MAX)
    &&& c.working_directory.len() <= u64::MAX
    &&& c.claude_args.len() <= u64::MAX
    &&& strs_encodable(c.claude_args)
    &&& c.env_vars.len() <= u64::MAX
    &&& pairs_encodable(c.env_vars)
    &&& i64::MIN <= c.created_at <= i64::MAX
    &&& (c.color_tag matches Some(v) ==> v.len() <= u64::MAX)
    &&& (c.nickname matches Some(v) ==> v.len() <= u64::MAX)
}

/// Reading a descriptor off its encoding yields it and leaves the tail.
#[verifier::rlimit(60)]
pub proof fn lemma_round_trip_config(c: ConfigView, tail: Seq<char>)
    requires
        config_encodable(c),
    ensures
        dec_config(enc_config(c) + tail) == Some((c, tail)),
{
    let e10 = enc_opt(c.nickname);
    let e9 = enc_opt(c.color_tag) + e10;
    let e8 = enc_status(c.status) + e9;
    let e7 = enc_i64(c.created_at as i64) + e8;
    let e6 = enc_pair_list(c.env_vars) + e7;
    let e5 = enc_str_list(c.claude_args) + e6;
    let e4 = enc_str(c.working_directory) + e5;
    let e3 = enc_opt(c.profile_id) + e4;
    let e2 = enc_str(c.label) + e3;
    assert(enc_config(c) + tail =~= enc_str(c.id) + (e2 + tail));
    assert(e2 + tail =~= enc_str(c.label) + (e3 + tail));
    assert(e3 + tail =~= enc_opt(c.profile_id) + (e4 + tail));
    assert(e4 + tail =~= enc_str(c.working_directory) + (e5 + tail));
    assert(e5 + tail =~= enc_str_list(c.claude_args) + (e6 + tail));
    assert(e6 + tail =~= enc_pair_list(c.env_vars) + (e7 + tail));
    assert(e7 + tail =~= enc_i64(c.created_at as i64) + (e8 + tail));
    assert(e8 + tail =~= enc_status(c.status) + (e9 + tail));
    assert(e9 + tail =~= enc_opt(c.color_tag) + (e10 + tail));
    lemma_round_trip_str(c.id, e2 + tail);
    lemma_round_trip_str(c.label, e3 + tail);
    lemma_round_trip_opt(c.profile_id, e4 + tail);
    lemma_round_trip_str(c.working_directory, e5 + tail);
    lemma_round_trip_str_list(c.claude_args, e6 + tail);
    lemma_round_trip_pair_list(c.env_vars, e7 + tail);
    lemma_round_trip_i64(c.created_at as i64, e8 + tail);
    lemma_round_trip_status(c.status, e9 + tail);
    lemma_round_trip_opt(c.color_tag, e10 + tail);
    lemma_round_trip_opt(c.nickname, tail);
    assert((c.created_at as i64) as int == c.created_at);
}

/// The encodings of the descriptors of a list, one after another.
pub open spec fn enc_config_items(l: Seq<ConfigView>) -> Seq<char>
    decreases l.len(),
{
    if l.len() == 0 {
        Seq::empty()
    } else {
        enc_config(l[0]) + enc_config_items(l.drop_first())
    }
}

/// The payload of a persisted workspace: the descriptor count, then the
/// descriptors.
pub open spec fn enc_configs(l: Seq<ConfigView>) -> Seq<char> {
    enc_u64(l.len() as u64) + enc_config_items(l)
}

/// Reads `count` descriptors off the front of the stream.
pub open spec fn dec_config_items(s: Seq<char>, count: nat) -> Option<(Seq<ConfigView>, Seq<char>)>
    decreases count,
{
    if count == 0 {
        Some((Seq::empty(), s))
    } else {
        match dec_config(s) {
            Some(p) => match dec_config_items(p.1, (count - 1) as nat) {
                Some(q) => Some((seq![p.0] + q.0, q.1)),
                None => None,
            },
            None => None,
        }
    }
}

/// The descriptor list a whole payload denotes, if the payload is
/// well-formed and nothing trails it.
pub open spec fn dec_configs(s: Seq<char>) -> Option<Seq<ConfigView>> {
    match dec_nat(s, 8) {
        Some(p) => match dec_config_items(p.1, p.0) {
            Some(q) => if q.1.len() == 0 {
                Some(q.0)
            } else {
                None
            },
            None => None,
        },
        None => None,
    }
}

/// Every descriptor of the list fits the encoding's counters.
pub open spec fn configs_encodable(l: Seq<ConfigView>) -> bool {
    forall|i: int| 0 <= i < l.len() ==> config_encodable(#[trigger] l[i])
}

/// Reading `count` descriptors off the encoding of `count` descriptors
/// yields them and leaves the tail.
pub proof fn lemma_round_trip_config_items(l: Seq<ConfigView>, tail: Seq<char>)
    requires
        configs_encodable(l),
    ensures
        dec_config_items(enc_config_items(l) + tail, l.len()) == Some((l, tail)),
    decreases l.len(),
{
    if l.len() == 0 {
        assert(enc_config_items(l) + tail =~= tail);
        assert(Seq::<ConfigView>::empty() =~= l);
    } else {
        let rest = l.drop_first();
        assert(enc_config_items(l) + tail =~= enc_config(l[0]) + (enc_config_items(rest) + tail));
        lemma_round_trip_config(l[0], enc_config_items(rest) + tail);
        lemma_round_trip_config_items(rest, tail);
        assert(seq![l[0]] + rest =~= l);
    }
}

/// The round trip of the persisted payload: decoding the encoding of any
/// descriptor list yields exactly that list.
pub proof fn lemma_round_trip_configs(l: Seq<ConfigView>)
    requires
        configs_encodable(l),
        l.len() <= u64::MAX,
    ensures
        dec_configs(enc_configs(l)) == Some(l),
{
    lemma_pow256_8();
    assert(enc_configs(l) =~= enc_u64(l.len() as u64) + (enc_config_items(l) + Seq::empty()));
    lemma_round_trip_nat(l.len() as nat, 8, enc_config_items(l) + Seq::empty());
    lemma_round_trip_config_items(l, Seq::empty());
}

/// Appending one string to a list appends its encoding to the list's item
/// encoding.
proof fn lemma_enc_str_items_push(l: Seq<Seq<char>>, x: Seq<char>)
    ensures
        enc_str_items(l.push(x)) == enc_str_items(l) + enc_str(x),
    decreases l.len(),
{
    let e = enc_str(x);
    if l.len() == 0 {
        assert(l =~= Seq::<Seq<char>>::empty());
        assert(l.push(x).drop_first() =~= Seq::<Seq<char>>::empty());
        assert(l.push(x)[0] == x);
        assert(enc_str_items(l.push(x)) == e + enc_str_items(l.push(x).drop_first()));
        assert(enc_str_items(Seq::<Seq<char>>::empty()) == Seq::<char>::empty());
        assert(enc_str_items(l.push(x)) =~= enc_str_items(l) + e);
    } else {
        assert(l.push(x).drop_first() =~= l.drop_first().push(x));
        lemma_enc_str_items_push(l.drop_first(), x);
        assert(l.push(x)[0] == l[0]);
        assert(enc_str_items(l.push(x)) == enc_str(l.push(x)[0]) + enc_str_items(l.push(x).drop_first()));
        assert(enc_str_items(l) == enc_str(l[0]) + enc_str_items(l.drop_first()));
        assert(enc_str(l[0]) + (enc_str_items(l.drop_first()) + e) =~= (enc_str(l[0]) + enc_str_items(l.drop_first())) + e);
    }
}

/// Appending one pair to an association list appends its encoding to the
/// list's item encoding.
proof fn lemma_enc_pair_items_push(l: Seq<(Seq<char>, Seq<char>)>, x: (Seq<char>, Seq<char>))
    ensures
        enc_pair_items(l.push(x)) == enc_pair_items(l) + (enc_str(x.0) + enc_str(x.1)),
    decreases l.len(),
{
    let e = (enc_str(x.0) + enc_str(x.1));
    if l.len() == 0 {
        assert(l =~= Seq::<(Seq<char>, Seq<char>)>::empty());
        assert(l.push(x).drop_first() =~= Seq::<(Seq<char>, Seq<char>)>::empty());
        assert(l.push(x)[0] == x);
        assert(enc_pair_items(l.push(x)) == e + enc_pair_items(l.push(x).drop_first()));
        assert(enc_pair_items(Seq::<(Seq<char>, Seq<char>)>::empty()) == Seq::<char>::empty());
        assert(enc_pair_items(l.push(x)) =~= enc_pair_items(l) + e);
    } else {
        assert(l.push(x).drop_first() =~= l.drop_first().push(x));
        lemma_enc_pair_items_push(l.drop_first(), x);
        assert(l.push(x)[0] == l[0]);
        assert(enc_pair_items(l.push(x)) == (enc_str(l.push(x)[0].0) + enc_str(l.push(x)[0].1)) + enc_pair_items(l.push(x).drop_first()));
        assert(enc_pair_items(l) == (enc_str(l[0].0) + enc_str(l[0].1)) + enc_pair_items(l.drop_first()));
        assert((enc_str(l[0].0) + enc_str(l[0].1)) + (enc_pair_items(l.drop_first()) + e) =~= ((enc_str(l[0].0) + enc_str(l[0].1)) + enc_pair_items(l.drop_first())) + e);
    }
}

/// Appending one descriptor to a list appends its encoding to the list's
/// item encoding.
proof fn lemma_enc_config_items_push(l: Seq<ConfigView>, x: ConfigView)
    ensures
        enc_config_items(l.push(x)) == enc_config_items(l) + enc_config(x),
    decreases l.len(),
{
    let e = enc_config(x);
    if l.len() == 0 {
        assert(l =~= Seq::<ConfigView>::empty());
        assert(l.push(x).drop_first() =~= Seq::<ConfigView>::empty());
        assert(l.push(x)[0] == x);
        assert(enc_config_items(l.push(x)) == e + enc_config_items(l.push(x).drop_first()));
        assert(enc_config_items(Seq::<ConfigView>::empty()) == Seq::<char>::empty());
        assert(enc_config_items(l.push(x)) =~= enc_config_items(l) + e);
    } else {
        assert(l.push(x).drop_first() =~= l.drop_first().push(x));
        lemma_enc_config_items_push(l.drop_first(), x);
        assert(l.push(x)[0] == l[0]);
        assert(enc_config_items(l.push(x)) == enc_config(l.push(x)[0]) + enc_config_items(l.push(x).drop_first()));
        assert(enc_config_items(l) == enc_config(l[0]) + enc_config_items(l.drop_first()));
        assert(enc_config(l[0]) + (enc_config_items(l.drop_first()) + e) =~= (enc_config(l[0]) + enc_config_items(l.drop_first())) + e);
    }
}

/// Appends the encoding of one string.
fn push_str_enc(out: &mut Vec<char>, s: &str)
    ensures
        final(out)@ == old(out)@ + enc_str(s@),
        s@.len() <= u64::MAX,
{
    let mut cs = crate::strutil::chars_of(s);
    let n = cs.len();
    push_u64(out, n as u64);
    let ghost mid = out@;
    out.append(&mut cs);
    proof {
        assert(out@ =~= old(out)@ + enc_str(s@));
    }
}

/// Appends the encoding of one optional string.
fn push_opt_enc(out: &mut Vec<char>, o: &Option<String>)
    ensures
        final(out)@ == old(out)@ + enc_opt(o.deep_view()),
        o matches Some(v) ==> v@.len() <= u64::MAX,
{
    match o {
        None => {
            out.push('0');
            proof {
                assert(out@ =~= old(out)@ + enc_opt(None));
            }
        },
        Some(v) => {
            out.push('1');
            push_str_enc(out, v.as_str());
            proof {
                assert(out@ =~= old(out)@ + enc_opt(Some(v@)));
            }
        },
    }
}

/// Appends the encoding of one list of strings.
fn push_str_list_enc(out: &mut Vec<char>, l: &Vec<String>)
    ensures
        final(out)@ == old(out)@ + enc_str_list(l.deep_view()),
        strs_encodable(l.deep_view()),
        l.deep_view().len() <= u64::MAX,
{
    push_u64(out, l.len() as u64);
    let ghost base = out@;
    let mut i: usize = 0;
    while i < l.len()
        invariant
            i <= l@.len(),
            base == old(out)@ + enc_u64(l@.len() as u64),
            out@ == base + enc_str_items(l.deep_view().take(i as int)),
            forall|j: int| 0 <= j < i ==> #[trigger] l.deep_view()[j].len() <= u64::MAX,
        decreases l@.len() - i,
    {
        let ghost before = l.deep_view().take(i as int);
        push_str_enc(out, l[i].as_str());
        proof {
            assert(l.deep_view().take(i + 1 as int) =~= before.push(l.deep_view()[i as int]));
            lemma_enc_str_items_push(before, l.deep_view()[i as int]);
        }
        i = i + 1;
    }
    proof {
        assert(l.deep_view().take(l@.len() as int) =~= l.deep_view());
        assert(out@ =~= old(out)@ + enc_str_list(l.deep_view()));
    }
}

/// Appends the encoding of one association list.
fn push_pair_list_enc(out: &mut Vec<char>, l: &Vec<(String, String)>)
    ensures
        final(out)@ == old(out)@ + enc_pair_list(l.deep_view()),
        pairs_encodable(l.deep_view()),
        l.deep_view().len() <= u64::MAX,
{
    push_u64(out, l.len() as u64);
    let ghost base = out@;
    let mut i: usize = 0;
    while i < l.len()
        invariant
            i <= l@.len(),
            base == old(out)@ + enc_u64(l@.len() as u64),
            out@ == base + enc_pair_items(l.deep_view().take(i as int)),
            forall|j: int|
                0 <= j < i ==> (#[trigger] l.deep_view()[j].0.len() <= u64::MAX
                    && l.deep_view()[j].1.len() <= u64::MAX),
        decreases l@.len() - i,
    {
        let ghost before = l.deep_view().take(i as int);
        push_str_enc(out, l[i].0.as_str());
        push_str_enc(out, l[i].1.as_str());
        proof {
            assert(l.deep_view().take(i + 1 as int) =~= before.push(l.deep_view()[i as int]));
            lemma_enc_pair_items_push(before, l.deep_view()[i as int]);
            assert(out@ =~= base + enc_pair_items(l.deep_view().take(i + 1 as int)));
        }
        i = i + 1;
    }
    proof {
        assert(l.deep_view().take(l@.len() as int) =~= l.deep_view());
        assert(out@ =~= old(out)@ + enc_pair_list(l.deep_view()));
    }
}

/// Appends the encoding of one descriptor.
#[verifier::rlimit(80)]
fn push_config_enc(out: &mut Vec<char>, c: &TerminalConfig)
    ensures
        final(out)@ == old(out)@ + enc_config(c@),
        config_encodable(c@),
{
    push_str_enc(out, c.id.as_str());
    push_str_enc(out, c.label.as_str());
    push_opt_enc(out, &c.profile_id);
    push_str_enc(out, c.working_directory.as_str());
    push_str_list_enc(out, &c.claude_args);
    push_pair_list_enc(out, &c.env_vars);
    let stamp: u64 = #[verifier::truncate] (c.created_at as u64);
    push_u64(out, stamp);
    match c.status {
        TerminalStatus::Running => out.push('r'),
        TerminalStatus::Idle => out.push('i'),
        TerminalStatus::Error => out.push('e'),
        TerminalStatus::Stopped => out.push('s'),
    }
    push_opt_enc(out, &c.color_tag);
    push_opt_enc(out, &c.nickname);
    proof {
        assert(out@ =~= old(out)@ + enc_config(c@));
    }
}

/// The whole payload of a descriptor list, ready to persist.
pub fn encode_configs(l: &Vec<TerminalConfig>) -> (r: Vec<char>)
    ensures
        r@ == enc_configs(l.deep_view()),
        configs_encodable(l.deep_view()),
        l.deep_view().len() <= u64::MAX,
{
    let mut out: Vec<char> = Vec::new();
    push_u64(&mut out, l.len() as u64);
    let ghost base = out@;
    let mut i: usize = 0;
    while i < l.len()
        invariant
            i <= l@.len(),
            base == Seq::<char>::empty() + enc_u64(l@.len() as u64),
            out@ == base + enc_config_items(l.deep_view().take(i as int)),
            forall|j: int| 0 <= j < i ==> config_encodable(#[trigger] l.deep_view()[j]),
        decreases l@.len() - i,
    {
        let ghost before = l.deep_view().take(i as int);
        push_config_enc(&mut out, &l[i]);
        proof {
            assert(l.deep_view().take(i + 1 as int) =~= before.push(l.deep_view()[i as int]));
            lemma_enc_config_items_push(before, l.deep_view()[i as int]);
        }
        i = i + 1;
    }
    proof {
        assert(l.deep_view().take(l@.len() as int) =~= l.deep_view());
        assert(out@ =~= enc_configs(l.deep_view()));
    }
    out
}

/// Reads one string at `pos`, exactly as [`dec_str`] reads the stream
/// from `pos`.
fn read_str(data: &[char], pos: usize) -> (r: Option<(String, usize)>)
    requires
        pos <= data@.len(),
    ensures
        r matches Some(q) ==> ({
            &&& pos <= q.1 <= data@.len()
            &&& dec_str(data@.skip(pos as int)) matches Some(p) && q.0@ == p.0 && data@.skip(
                q.1 as int,
            ) == p.1
        }),
        r is None ==> dec_str(data@.skip(pos as int)) is None,
{
    let ghost s = data@.skip(pos as int);
    let (n, p2) = match read_u64(data, pos) {
        Some(q) => q,
        None => {
            return None;
        },
    };
    let remaining = data.len() - p2;
    if n > remaining as u64 {
        return None;
    }
    let count = n as usize;
    let end = p2 + count;
    let sl = vstd::slice::slice_subrange(data, p2, end);
    let st = crate::strutil::string_from_chars(sl);
    proof {
        let rest = data@.skip(p2 as int);
        assert(rest.take(n as int) =~= data@.subrange(p2 as int, end as int));
        assert(rest.skip(n as int) =~= data@.skip(end as int));
    }
    Some((st, end))
}

/// Reads one optional string at `pos`, exactly as [`dec_opt`] reads the
/// stream from `pos`.
fn read_opt(data: &[char], pos: usize) -> (r: Option<(Option<String>, usize)>)
    requires
        pos <= data@.len(),
    ensures
        r matches Some(q) ==> ({
            &&& pos <= q.1 <= data@.len()
            &&& dec_opt(data@.skip(pos as int)) matches Some(p) && q.0.deep_view() == p.0
                && data@.skip(q.1 as int) == p.1
        }),
        r is None ==> dec_opt(data@.skip(pos as int)) is None,
{
    let ghost s = data@.skip(pos as int);
    if pos >= data.len() {
        return None;
    }
    proof {
        assert(s[0] == data@[pos as int]);
        assert(data@.skip(pos + 1 as int) =~= s.drop_first());
    }
    let tag = data[pos];
    if tag == '0' {
        Some((None, pos + 1))
    } else if tag == '1' {
        match read_str(data, pos + 1) {
            Some(q) => Some((Some(q.0), q.1)),
            None => None,
        }
    } else {
        None
    }
}

/// Reads `count` strings at `pos`, exactly as [`dec_str_items`] reads the
/// stream from `pos`.
fn read_str_items(data: &[char], pos: usize, count: u64) -> (r: Option<(Vec<String>, usize)>)
    requires
        pos <= data@.len(),
    ensures
        r matches Some(q) ==> ({
            &&& pos <= q.1 <= data@.len()
            &&& dec_str_items(data@.skip(pos as int), count as nat) matches Some(p)
                && q.0.deep_view() == p.0 && data@.skip(q.1 as int) == p.1
        }),
        r is None ==> dec_str_items(data@.skip(pos as int), count as nat) is None,
    decreases count,
{
    if count == 0 {
        let empty: Vec<String> = Vec::new();
        proof {
            assert(empty.deep_view() =~= Seq::<Seq<char>>::empty());
        }
        return Some((empty, pos));
    }
    let (first, p1) = match read_str(data, pos) {
        Some(q) => q,
        None => {
            return None;
        },
    };
    match read_str_items(data, p1, count - 1) {
        Some((mut v, p2)) => {
            v.insert(0, first);
            proof {
                let p = dec_str_items(data@.skip(pos as int), count as nat).unwrap();
                assert(v.deep_view() =~= p.0);
            }
            Some((v, p2))
        },
        None => None,
    }
}

/// Reads one list of strings at `pos`, exactly as [`dec_str_list`] reads
/// the stream from `pos`.
fn read_str_list(data: &[char], pos: usize) -> (r: Option<(Vec<String>, usize)>)
    requires
        pos <= data@.len(),
    ensures
        r matches Some(q) ==> ({
            &&& pos <= q.1 <= data@.len()
            &&& dec_str_list(data@.skip(pos as int)) matches Some(p) && q.0.deep_view() == p.0
                && data@.skip(q.1 as int) == p.1
        }),
        r is None ==> dec_str_list(data@.skip(pos as int)) is None,
{
    match read_u64(data, pos) {
        Some((n, p1)) => read_str_items(data, p1, n),
        None => None,
    }
}

/// Reads `count` string pairs at `pos`, exactly as [`dec_pair_items`]
/// reads the stream from `pos`.
fn read_pair_items(data: &[char], pos: usize, count: u64) -> (r: Option<
    (Vec<(String, String)>, usize),
>)
    requires
        pos <= data@.len(),
    ensures
        r matches Some(q) ==> ({
            &&& pos <= q.1 <= data@.len()
            &&& dec_pair_items(data@.skip(pos as int), count as nat) matches Some(p)
                && q.0.deep_view() == p.0 && data@.skip(q.1 as int) == p.1
        }),
        r is None ==> dec_pair_items(data@.skip(pos as int), count as nat) is None,
    decreases count,
{
    if count == 0 {
        let empty: Vec<(String, String)> = Vec::new();
        proof {
            assert(empty.deep_view() =~= Seq::<(Seq<char>, Seq<char>)>::empty());
        }
        return Some((empty, pos));
    }
    let (name, p1) = match read_str(data, pos) {
        Some(q) => q,
        None => {
            return None;
        },
    };
    let (value, p2) = match read_str(data, p1) {
        Some(q) => q,
        None => {
            return None;
        },
    };
    match read_pair_items(data, p2, count - 1) {
        Some((mut v, p3)) => {
            v.insert(0, (name, value));
            proof {
                let p = dec_pair_items(data@.skip(pos as int), count as nat).unwrap();
                assert(v.deep_view() =~= p.0);
            }
            Some((v, p3))
        },
        None => None,
    }
}

/// Reads one association list at `pos`, exactly as [`dec_pair_list`]
/// reads the stream from `pos`.
fn read_pair_list(data: &[char], pos: usize) -> (r: Option<(Vec<(String, String)>, usize)>)
    requires
        pos <= data@.len(),
    ensures
        r matches Some(q) ==> ({
            &&& pos <= q.1 <= data@.len()
            &&& dec_pair_list(data@.skip(pos as int)) matches Some(p) && q.0.deep_view() == p.0
                && data@.skip(q.1 as int) == p.1
        }),
        r is None ==> dec_pair_list(data@.skip(pos as int)) is None,
{
    match read_u64(data, pos) {
        Some((n, p1)) => read_pair_items(data, p1, n),
        None => None,
    }
}

/// Reads one status tag at `pos`, exactly as [`dec_status`] reads the
/// stream from `pos`.
fn read_status(data: &[char], pos: usize) -> (r: Option<(TerminalStatus, usize)>)
    requires
        pos <= data@.len(),
    ensures
        r matches Some(q) ==> ({
            &&& pos <= q.1 <= data@.len()
            &&& dec_status(data@.skip(pos as int)) matches Some(p) && q.0 == p.0 && data@.skip(
                q.1 as int,
            ) == p.1
        }),
        r is None ==> dec_status(data@.skip(pos as int)) is None,
{
    let ghost s = data@.skip(pos as int);
    if pos >= data.len() {
        return None;
    }
    proof {
        assert(s[0] == data@[pos as int]);
        assert(data@.skip(pos + 1 as int) =~= s.drop_first());
    }
    let tag = data[pos];
    if tag == 'r' {
        Some((TerminalStatus::Running, pos + 1))
    } else if tag == 'i' {
        Some((TerminalStatus::Idle, pos + 1))
    } else if tag == 'e' {
        Some((TerminalStatus::Error, pos + 1))
    } else if tag == 's' {
        Some((TerminalStatus::Stopped, pos + 1))
    } else {
        None
    }
}

/// Reads one descriptor at `pos`, exactly as [`dec_config`] reads the
/// stream from `pos`.
#[verifier::rlimit(100)]
fn read_config(data: &[char], pos: usize) -> (r: Option<(TerminalConfig, usize)>)
    requires
        pos <= data@.len(),
    ensures
        r matches Some(q) ==> ({
            &&& pos <= q.1 <= data@.len()
            &&& dec_config(data@.skip(pos as int)) matches Some(p) && q.0@ == p.0 && data@.skip(
                q.1 as int,
            ) == p.1
        }),
        r is None ==> dec_config(data@.skip(pos as int)) is None,
{
    let (id, p1) = match read_str(data, pos) {
        Some(q) => q,
        None => {
            return None;
        },
    };
    let (label, p2) = match read_str(data, p1) {
        Some(q) => q,
        None => {
            return None;
        },
    };
    let (profile_id, p3) = match read_opt(data, p2) {
        Some(q) => q,
        None => {
            return None;
        },
    };
    let (working_directory, p4) = match read_str(data, p3) {
        Some(q) => q,
        None => {
            return None;
        },
    };
    let (claude_args, p5) = match read_str_list(data, p4) {
        Some(q) => q,
        None => {
            return None;
        },
    };
    let (env_vars, p6) = match read_pair_list(data, p5) {
        Some(q) => q,
        None => {
            return None;
        },
    };
    let (stamp, p7) = match read_u64(data, p6) {
        Some(q) => q,
        None => {
            return None;
        },
    };
    let (status, p8) = match read_status(data, p7) {
        Some(q) => q,
        None => {
            return None;
        },
    };
    let (color_tag, p9) = match read_opt(data, p8) {
        Some(q) => q,
        None => {
            return None;
        },
    };
    let (nickname, p10) = match read_opt(data, p9) {
        Some(q) => q,
        None => {
            return None;
        },
    };
    let created_at: i64 = #[verifier::truncate] (stamp as i64);
    let config = TerminalConfig {
        id,
        label,
        profile_id,
        working_directory,
        claude_args,
        env_vars,
        created_at,
        status,
        color_tag,
        nickname,
    };
    proof {
        let p = dec_config(data@.skip(pos as int)).unwrap();
        assert(config@ =~= p.0);
    }
    Some((config, p10))
}

/// Reads `count` descriptors at `pos`, exactly as [`dec_config_items`]
/// reads the stream from `pos`.
fn read_config_items(data: &[char], pos: usize, count: u64) -> (r: Option<
    (Vec<TerminalConfig>, usize),
>)
    requires
        pos <= data@.len(),
    ensures
        r matches Some(q) ==> ({
            &&& pos <= q.1 <= data@.len()
            &&& dec_config_items(data@.skip(pos as int), count as nat) matches Some(p)
                && q.0.deep_view() == p.0 && data@.skip(q.1 as int) == p.1
        }),
        r is None ==> dec_config_items(data@.skip(pos as int), count as nat) is None,
    decreases count,
{
    if count == 0 {
        let empty: Vec<TerminalConfig> = Vec::new();
        proof {
            assert(empty.deep_view() =~= Seq::<ConfigView>::empty());
        }
        return Some((empty, pos));
    }
    let (first, p1) = match read_config(data, pos) {
        Some(q) => q,
        None => {
            return None;
        },
    };
    match read_config_items(data, p1, count - 1) {
        Some((mut v, p2)) => {
            v.insert(0, first);
            proof {
                let p = dec_config_items(data@.skip(pos as int), count as nat).unwrap();
                assert(v.deep_view() =~= p.0);
            }
            Some((v, p2))
        },
        None => None,
    }
}

/// The descriptor list a persisted payload denotes, exactly as
/// [`dec_configs`] reads it; a malformed payload is a serialization
/// failure.
pub fn decode_configs(data: &Vec<char>) -> (r: Result<Vec<TerminalConfig>, TerminalError>)
    ensures
        dec_configs(data@) matches Some(vs) ==> (r matches Ok(out) && out.deep_view() == vs),
        dec_configs(data@) is None ==> (r matches Err(e) && e is SerializationFailure),
{
    proof {
        assert(data@.skip(0) =~= data@);
    }
    let (count, p1) = match read_u64(data.as_slice(), 0) {
        Some(q) => q,
        None => {
            return Err(TerminalError::SerializationFailure(
                "Malformed workspace payload".to_owned(),
            ));
        },
    };
    match read_config_items(data.as_slice(), p1, count) {
        Some((v, p2)) => {
            if p2 == data.len() {
                proof {
                    assert(data@.skip(p2 as int).len() == 0);
                }
                Ok(v)
            } else {
                proof {
                    assert(data@.skip(p2 as int).len() > 0);
                }
                Err(TerminalError::SerializationFailure(
                    "Trailing data after workspace payload".to_owned(),
                ))
            }
        },
        None => Err(TerminalError::SerializationFailure(
            "Malformed workspace payload".to_owned(),
        )),
    }
}

} // verus!
