//! Snapshot codec: the byte-exact text form in which a run's price
//! records are kept by the on-disk cache.
//!
//! A snapshot is a sequence of fixed-layout records.  Each record
//! holds the coin's name length as sixteen hexadecimal digits, the
//! coin's characters, one currency tag character, and three sixteen-digit
//! hexadecimal numbers: price, market capitalization, and the 24-hour
//! change shifted into an unsigned range.  Writing a record list and
//! reading it back yields the same records; the cache itself only
//! stores and fetches the text.

use vstd::prelude::*;

use crate::model::{prices_view, Currency, PriceInfo, PriceInfoV};

verus! {

broadcast use vstd::string::group_string_axioms;

/// The shift that maps a signed 24-hour change into the unsigned range
/// the codec stores.
pub const CHANGE_OFFSET: u64 = 0x8000_0000_0000_0000;

/// Sixteen to the power `n`.
pub open spec fn pow16(n: nat) -> int
    decreases n,
{
    if n == 0 {
        1
    } else {
        16 * pow16((n - 1) as nat)
    }
}

/// The hexadecimal digit character of a value below sixteen.
pub open spec fn hex_char(d: int) -> char {
    if d == 0 {
        '0'
    } else if d == 1 {
        '1'
    } else if d == 2 {
        '2'
    } else if d == 3 {
        '3'
    } else if d == 4 {
        '4'
    } else if d == 5 {
        '5'
    } else if d == 6 {
        '6'
    } else if d == 7 {
        '7'
    } else if d == 8 {
        '8'
    } else if d == 9 {
        '9'
    } else if d == 10 {
        'a'
    } else if d == 11 {
        'b'
    } else if d == 12 {
        'c'
    } else if d == 13 {
        'd'
    } else if d == 14 {
        'e'
    } else {
        'f'
    }
}

/// The value of a hexadecimal digit character, if it is one.
pub open spec fn hex_val_char(c: char) -> Option<int> {
    if c == '0' {
        Some(0)
    } else if c == '1' {
        Some(1)
    } else if c == '2' {
        Some(2)
    } else if c == '3' {
        Some(3)
    } else if c == '4' {
        Some(4)
    } else if c == '5' {
        Some(5)
    } else if c == '6' {
        Some(6)
    } else if c == '7' {
        Some(7)
    } else if c == '8' {
        Some(8)
    } else if c == '9' {
        Some(9)
    } else if c == 'a' {
        Some(10)
    } else if c == 'b' {
        Some(11)
    } else if c == 'c' {
        Some(12)
    } else if c == 'd' {
        Some(13)
    } else if c == 'e' {
        Some(14)
    } else if c == 'f' {
        Some(15)
    } else {
        None
    }
}

/// A nonnegative value written as `n` hexadecimal digits, most
/// significant first.
pub open spec fn hex_digits(v: int, n: nat) -> Seq<char>
    decreases n,
{
    if n == 0 {
        Seq::empty()
    } else {
        hex_digits(v / 16, (n - 1) as nat) + seq![hex_char(v % 16)]
    }
}

/// Reads hexadecimal digits left to right onto an accumulator; any
/// non-digit character fails the parse.
pub open spec fn parse_hex(s: Seq<char>, acc: int) -> Option<int>
    decreases s.len(),
{
    if s.len() == 0 {
        Some(acc)
    } else {
        match hex_val_char(s[0]) {
            Some(d) => parse_hex(s.drop_first(), acc * 16 + d),
            None => None,
        }
    }
}

proof fn lemma_pow16_pos(n: nat)
    ensures
        pow16(n) >= 1,
    decreases n,
{
    if n > 0 {
        lemma_pow16_pos((n - 1) as nat);
    }
}

proof fn lemma_parse_append(a: Seq<char>, b: Seq<char>, acc: int)
    ensures
        parse_hex(a + b, acc) == (match parse_hex(a, acc) {
            Some(x) => parse_hex(b, x),
            None => None,
        }),
    decreases a.len(),
{
    if a.len() == 0 {
        assert(a + b =~= b);
    } else {
        assert((a + b)[0] == a[0]);
        match hex_val_char(a[0]) {
            Some(d) => {
                assert((a + b).drop_first() =~= a.drop_first() + b);
                lemma_parse_append(a.drop_first(), b, acc * 16 + d);
            },
            None => {},
        }
    }
}

proof fn lemma_hex_round_trip(v: int, n: nat, acc: int)
    requires
        0 <= v < pow16(n),
    ensures
        parse_hex(hex_digits(v, n), acc) == Some(acc * pow16(n) + v),
    decreases n,
{
    if n == 0 {
        assert(v == 0);
        assert(acc * 1 + 0 == acc) by (nonlinear_arith);
    } else {
        let m = (n - 1) as nat;
        lemma_pow16_pos(m);
        assert(v / 16 < pow16(m)) by (nonlinear_arith)
            requires
                0 <= v < 16 * pow16(m),
                pow16(m) >= 1,
        ;
        lemma_hex_round_trip(v / 16, m, acc);
        let x = acc * pow16(m) + v / 16;
        let a = hex_digits(v / 16, m);
        let b = seq![hex_char(v % 16)];
        lemma_parse_append(a, b, acc);
        assert(0 <= v % 16 < 16);
        assert(hex_val_char(hex_char(v % 16)) == Some(v % 16));
        assert(b.drop_first() =~= Seq::<char>::empty());
        assert(parse_hex(Seq::<char>::empty(), x * 16 + v % 16) == Some(x * 16 + v % 16));
        assert(parse_hex(b, x) == Some(x * 16 + v % 16));
        assert(x * 16 + v % 16 == acc * pow16(n) + v) by (nonlinear_arith)
            requires
                x == acc * pow16(m) + v / 16,
                pow16(n) == 16 * pow16(m),
                v == 16 * (v / 16) + v % 16,
        ;
    }
}

/// The codec's tag character of a currency.
pub open spec fn cur_char(c: Currency) -> char {
    match c {
        Currency::EUR => 'E',
        Currency::USD => 'U',
    }
}

/// The currency a tag character names, if any.
pub open spec fn cur_of_char(ch: char) -> Option<Currency> {
    if ch == 'E' {
        Some(Currency::EUR)
    } else if ch == 'U' {
        Some(Currency::USD)
    } else {
        None
    }
}

/// The text of one snapshot record.
pub open spec fn enc_record(p: PriceInfoV) -> Seq<char> {
    hex_digits(p.coin.len() as int, 16) + p.coin + seq![cur_char(p.currency)] + hex_digits(
        p.value as int,
        16,
    ) + hex_digits(p.market_cap as int, 16) + hex_digits(
        p.change_24h + CHANGE_OFFSET,
        16,
    )
}

/// The text of a whole snapshot: the records one after another.
pub open spec fn enc_records(ps: Seq<PriceInfoV>) -> Seq<char>
    decreases ps.len(),
{
    if ps.len() == 0 {
        Seq::empty()
    } else {
        enc_record(ps[0]) + enc_records(ps.drop_first())
    }
}

/// Reads one record off the front of a snapshot text: the record and
/// the number of characters it occupied, or nothing when the front is
/// not a well-formed record.
pub open spec fn dec_record(s: Seq<char>) -> Option<(PriceInfoV, int)> {
    if s.len() < 16 {
        None
    } else {
        match parse_hex(s.take(16), 0) {
            None => None,
            Some(len) => if len < 0 || 16 + len + 49 > s.len() {
                None
            } else {
                match cur_of_char(s[16 + len]) {
                    None => None,
                    Some(cur) => match parse_hex(s.subrange(17 + len, 33 + len), 0) {
                        None => None,
                        Some(value) => match parse_hex(s.subrange(33 + len, 49 + len), 0) {
                            None => None,
                            Some(mkt) => match parse_hex(s.subrange(49 + len, 65 + len), 0) {
                                None => None,
                                Some(chg) => Some(
                                    (
                                        PriceInfoV {
                                            coin: s.subrange(16, 16 + len),
                                            currency: cur,
                                            value: value as u64,
                                            market_cap: mkt as u64,
                                            change_24h: (chg - CHANGE_OFFSET) as i64,
                                        },
                                        65 + len,
                                    ),
                                ),
                            },
                        },
                    },
                }
            },
        }
    }
}

/// Reads a whole snapshot text back into records, or nothing when the
/// text is not a well-formed snapshot.
pub open spec fn dec_records(s: Seq<char>) -> Option<Seq<PriceInfoV>>
    decreases s.len(),
{
    if s.len() == 0 {
        Some(Seq::empty())
    } else {
        match dec_record(s) {
            None => None,
            Some((p, used)) => if !(0 < used <= s.len()) {
                None
            } else {
                match dec_records(s.skip(used)) {
                    None => None,
                    Some(rest) => Some(seq![p] + rest),
                }
            },
        }
    }
}

fn hex_digit_str(d: u64) -> (r: &'static str)
    requires
        d < 16,
    ensures
        r@ == seq![hex_char(d as int)],
{
    proof {
        reveal_strlit("0");
        reveal_strlit("1");
        reveal_strlit("2");
        reveal_strlit("3");
        reveal_strlit("4");
        reveal_strlit("5");
        reveal_strlit("6");
        reveal_strlit("7");
        reveal_strlit("8");
        reveal_strlit("9");
        reveal_strlit("a");
        reveal_strlit("b");
        reveal_strlit("c");
        reveal_strlit("d");
        reveal_strlit("e");
        reveal_strlit("f");
    }
    let r: &'static str = if d == 0 {
        "0"
    } else if d == 1 {
        "1"
    } else if d == 2 {
        "2"
    } else if d == 3 {
        "3"
    } else if d == 4 {
        "4"
    } else if d == 5 {
        "5"
    } else if d == 6 {
        "6"
    } else if d == 7 {
        "7"
    } else if d == 8 {
        "8"
    } else if d == 9 {
        "9"
    } else if d == 10 {
        "a"
    } else if d == 11 {
        "b"
    } else if d == 12 {
        "c"
    } else if d == 13 {
        "d"
    } else if d == 14 {
        "e"
    } else {
        "f"
    };
    proof {
        assert(r@ =~= seq![hex_char(d as int)]);
    }
    r
}

fn push_hex(out: &mut String, v: u64, n: usize)
    ensures
        final(out)@ == old(out)@ + hex_digits(v as int, n as nat),
    decreases n,
{
    if n == 0 {
        proof {
            assert(old(out)@ + hex_digits(v as int, 0) =~= old(out)@);
        }
    } else {
        push_hex(out, v / 16, n - 1);
        let digit = hex_digit_str(v % 16);
        out.append(digit);
        proof {
            assert(old(out)@ + hex_digits(v as int, n as nat) =~= (old(out)@ + hex_digits(
                (v / 16) as int,
                (n - 1) as nat,
            )) + seq![hex_char((v % 16) as int)]);
        }
    }
}

/// Writes a record list as snapshot text.
pub fn encode_prices(prices: &Vec<PriceInfo>) -> (r: String)
    ensures
        r@ == enc_records(prices_view(prices@)),
{
    let ghost ps = prices_view(prices@);
    let mut out = String::new();
    let n = prices.len();
    let mut i: usize = 0;
    while i < n
        invariant
            0 <= i <= n,
            n == prices.len(),
            ps == prices_view(prices@),
            out@ == enc_records(ps.take(i as int)),
        decreases n - i,
    {
        let p = &prices[i];
        let ghost pv = ps[i as int];
        let ghost before = out@;
        proof {
            assert(pv == prices@[i as int]@);
        }
        let coin_len = p.coin.as_str().unicode_len();
        push_hex(&mut out, coin_len as u64, 16);
        out.append(p.coin.as_str());
        proof {
            reveal_strlit("E");
            reveal_strlit("U");
        }
        match p.currency {
            Currency::EUR => out.append("E"),
            Currency::USD => out.append("U"),
        }
        proof {
            assert((match pv.currency {
                Currency::EUR => "E"@,
                Currency::USD => "U"@,
            }) =~= seq![cur_char(pv.currency)]);
        }
        push_hex(&mut out, p.value, 16);
        push_hex(&mut out, p.market_cap, 16);
        let shifted: u64 = if p.change_24h >= 0 {
            (p.change_24h as u64) + CHANGE_OFFSET
        } else {
            (p.change_24h - i64::MIN) as u64
        };
        proof {
            assert(shifted as int == pv.change_24h + CHANGE_OFFSET);
        }
        push_hex(&mut out, shifted, 16);
        proof {
            assert(out@ =~= before + enc_record(pv));
            lemma_enc_records_push(ps.take(i as int), pv);
            assert(ps.take(i + 1) =~= ps.take(i as int).push(pv));
        }
        i = i + 1;
    }
    proof {
        assert(ps.take(n as int) =~= ps);
    }
    out
}

proof fn lemma_enc_records_push(ps: Seq<PriceInfoV>, p: PriceInfoV)
    ensures
        enc_records(ps.push(p)) == enc_records(ps) + enc_record(p),
    decreases ps.len(),
{
    if ps.len() == 0 {
        assert(ps.push(p)[0] == p);
        assert(ps.push(p).drop_first() =~= Seq::<PriceInfoV>::empty());
        assert(enc_records(Seq::<PriceInfoV>::empty()) == Seq::<char>::empty());
        assert(ps =~= Seq::<PriceInfoV>::empty());
        assert(enc_records(ps.push(p)) =~= enc_records(ps) + enc_record(p));
    } else {
        assert(ps.push(p)[0] == ps[0]);
        assert(ps.push(p).drop_first() =~= ps.drop_first().push(p));
        lemma_enc_records_push(ps.drop_first(), p);
        assert(enc_record(ps[0]) + (enc_records(ps.drop_first()) + enc_record(p))
            =~= (enc_record(ps[0]) + enc_records(ps.drop_first())) + enc_record(p));
    }
}

fn parse_hex16(s: &str, pos: usize) -> (r: Option<u64>)
    requires
        pos + 16 <= s@.len(),
        s@.len() <= usize::MAX,
    ensures
        ({
            let sub = s@.subrange(pos as int, pos as int + 16);
            match r {
                Some(v) => parse_hex(sub, 0) == Some(v as int),
                None => parse_hex(sub, 0) is None,
            }
        }),
{
    let ghost sub = s@.subrange(pos as int, pos as int + 16);
    let mut acc: u64 = 0;
    let mut k: usize = 0;
    proof {
        assert(sub.skip(0) =~= sub);
        lemma_pow16_pos(0);
    }
    while k < 16
        invariant
            0 <= k <= 16,
            pos + 16 <= s@.len(),
            s@.len() <= usize::MAX,
            sub == s@.subrange(pos as int, pos as int + 16),
            parse_hex(sub, 0) == parse_hex(sub.skip(k as int), acc as int),
            acc < pow16(k as nat),
        decreases 16 - k,
    {
        let c = s.get_char(pos + k);
        proof {
            assert(sub[k as int] == s@[pos + k]);
            assert(sub.skip(k as int)[0] == sub[k as int]);
            assert(sub.skip(k as int).drop_first() =~= sub.skip(k + 1));
        }
        let d: u64 = if c == '0' {
            0
        } else if c == '1' {
            1
        } else if c == '2' {
            2
        } else if c == '3' {
            3
        } else if c == '4' {
            4
        } else if c == '5' {
            5
        } else if c == '6' {
            6
        } else if c == '7' {
            7
        } else if c == '8' {
            8
        } else if c == '9' {
            9
        } else if c == 'a' {
            10
        } else if c == 'b' {
            11
        } else if c == 'c' {
            12
        } else if c == 'd' {
            13
        } else if c == 'e' {
            14
        } else if c == 'f' {
            15
        } else {
            return None;
        };
        proof {
            assert(hex_val_char(c) == Some(d as int));
            assert(acc * 16 + d < pow16((k + 1) as nat)) by (nonlinear_arith)
                requires
                    acc < pow16(k as nat),
                    d < 16,
                    pow16((k + 1) as nat) == 16 * pow16(k as nat),
            ;
            assert(acc * 16 + d < pow16(16)) by {
                lemma_pow16_mono((k + 1) as nat, 16);
            }
            reveal_with_fuel(pow16, 17);
            assert(pow16(16) == 0x1_0000_0000_0000_0000);
        }
        acc = acc * 16 + d;
        k = k + 1;
    }
    proof {
        assert(sub.skip(16) =~= Seq::<char>::empty());
    }
    Some(acc)
}

proof fn lemma_pow16_mono(a: nat, b: nat)
    requires
        a <= b,
    ensures
        pow16(a) <= pow16(b),
    decreases b,
{
    if a < b {
        lemma_pow16_mono(a, (b - 1) as nat);
        lemma_pow16_pos((b - 1) as nat);
    }
}

/// Reads snapshot text back into its record list, or nothing when the
/// text is not a well-formed snapshot.
pub fn decode_prices(s: &str) -> (r: Option<Vec<PriceInfo>>)
    ensures
        match r {
            Some(v) => dec_records(s@) == Some(prices_view(v@)),
            None => dec_records(s@) is None,
        },
{
    let total = s.unicode_len();
    let mut out: Vec<PriceInfo> = Vec::new();
    let mut pos: usize = 0;
    proof {
        assert(s@.skip(0) =~= s@);
        assert(prices_view(out@) =~= Seq::<PriceInfoV>::empty());
        assert(Seq::<PriceInfoV>::empty() + Seq::<PriceInfoV>::empty() =~= Seq::<
            PriceInfoV,
        >::empty());
    }
    while pos < total
        invariant
            0 <= pos <= total,
            total == s@.len(),
            dec_records(s@) == (match dec_records(s@.skip(pos as int)) {
                Some(rest) => Some(prices_view(out@) + rest),
                None => None,
            }),
        decreases total - pos,
    {
        let ghost tail = s@.skip(pos as int);
        // Record head: sixteen hexadecimal digits of coin length.
        if total - pos < 16 {
            proof {
                assert(dec_record(tail) is None);
            }
            return None;
        }
        let len = match parse_hex16(s, pos) {
            Some(v) => v,
            None => {
                proof {
                    assert(tail.take(16) =~= s@.subrange(pos as int, pos as int + 16));
                    assert(dec_record(tail) is None);
                }
                return None;
            },
        };
        proof {
            assert(tail.take(16) =~= s@.subrange(pos as int, pos as int + 16));
        }
        // The record needs the coin itself plus 49 fixed characters.
        let avail: u64 = (total - pos) as u64;
        if len > avail || avail - len < 65 {
            proof {
                assert(16 + (len as int) + 49 > tail.len());
                assert(dec_record(tail) is None);
            }
            return None;
        }
        let clen = len as usize;
        proof {
            assert(len <= avail);
            assert(clen as int == len as int);
        }
        let coin_str = s.substring_char(pos + 16, pos + 16 + clen);
        let coin = String::from_str(coin_str);
        proof {
            assert(coin@ =~= tail.subrange(16, 16 + len as int));
        }
        let cur_c = s.get_char(pos + 16 + clen);
        proof {
            assert(tail[16 + len as int] == s@[pos + 16 + len as int]);
        }
        let currency = if cur_c == 'E' {
            Currency::EUR
        } else if cur_c == 'U' {
            Currency::USD
        } else {
            proof {
                assert(cur_of_char(tail[16 + len as int]) is None);
                assert(dec_record(tail) is None);
            }
            return None;
        };
        let value = match parse_hex16(s, pos + 17 + clen) {
            Some(v) => v,
            None => {
                proof {
                    assert(tail.subrange(17 + len as int, 33 + len as int) =~= s@.subrange(
                        pos + 17 + len as int,
                        pos + 17 + len as int + 16,
                    ));
                    assert(dec_record(tail) is None);
                }
                return None;
            },
        };
        proof {
            assert(tail.subrange(17 + len as int, 33 + len as int) =~= s@.subrange(
                pos + 17 + len as int,
                pos + 17 + len as int + 16,
            ));
        }
        let mkt = match parse_hex16(s, pos + 33 + clen) {
            Some(v) => v,
            None => {
                proof {
                    assert(tail.subrange(33 + len as int, 49 + len as int) =~= s@.subrange(
                        pos + 33 + len as int,
                        pos + 33 + len as int + 16,
                    ));
                    assert(dec_record(tail) is None);
                }
                return None;
            },
        };
        proof {
            assert(tail.subrange(33 + len as int, 49 + len as int) =~= s@.subrange(
                pos + 33 + len as int,
                pos + 33 + len as int + 16,
            ));
        }
        let chg = match parse_hex16(s, pos + 49 + clen) {
            Some(v) => v,
            None => {
                proof {
                    assert(tail.subrange(49 + len as int, 65 + len as int) =~= s@.subrange(
                        pos + 49 + len as int,
                        pos + 49 + len as int + 16,
                    ));
                    assert(dec_record(tail) is None);
                }
                return None;
            },
        };
        proof {
            assert(tail.subrange(49 + len as int, 65 + len as int) =~= s@.subrange(
                pos + 49 + len as int,
                pos + 49 + len as int + 16,
            ));
        }
        let change_24h: i64 = if chg >= CHANGE_OFFSET {
            (chg - CHANGE_OFFSET) as i64
        } else {
            ((chg as i128) - (CHANGE_OFFSET as i128)) as i64
        };
        let rec = PriceInfo { coin, currency, value, market_cap: mkt, change_24h };
        let ghost prev = prices_view(out@);
        let ghost used = 65 + len as int;
        proof {
            assert(change_24h as int == chg - CHANGE_OFFSET);
            assert(dec_record(tail) == Some((rec@, used)));
            assert(tail.skip(used) =~= s@.skip(pos + used));
            assert(0 < used <= tail.len());
        }
        out.push(rec);
        proof {
            assert(prices_view(out@) =~= prev.push(rec@));
            // The record moves from the undecoded remainder to the
            // accumulator, whatever still follows it.
            assert forall|rest: Seq<PriceInfoV>|
                prev + (seq![rec@] + rest) =~= prices_view(out@) + rest by {}
        }
        pos = pos + 65 + clen;
        proof {
            assert(s@.skip(pos as int) == tail.skip(used));
        }
    }
    proof {
        assert(s@.skip(pos as int).len() == 0);
        assert(dec_records(s@.skip(pos as int)) == Some(Seq::<PriceInfoV>::empty()));
        assert(prices_view(out@) + Seq::<PriceInfoV>::empty() =~= prices_view(out@));
    }
    Some(out)
}

proof fn lemma_dec_enc_record(p: PriceInfoV, tail: Seq<char>)
    requires
        p.coin.len() < pow16(16),
    ensures
        dec_record(enc_record(p) + tail) == Some((p, 65 + p.coin.len() as int)),
        enc_record(p).len() == 65 + p.coin.len(),
{
    reveal_with_fuel(pow16, 17);
    let s = enc_record(p) + tail;
    let len = p.coin.len() as int;
    let a = hex_digits(len, 16);
    assert(a.len() == 16) by {
        lemma_hex_digits_len(len, 16);
    }
    assert(s.take(16) =~= a);
    lemma_hex_round_trip(len, 16, 0);
    assert(parse_hex(s.take(16), 0) == Some(len));
    lemma_hex_digits_len(p.value as int, 16);
    lemma_hex_digits_len(p.market_cap as int, 16);
    lemma_hex_digits_len(p.change_24h + CHANGE_OFFSET, 16);
    assert(enc_record(p).len() == 65 + len);
    assert(16 + len + 49 <= s.len());
    assert(s.subrange(16, 16 + len) =~= p.coin);
    assert(s[16 + len] == cur_char(p.currency));
    assert(cur_of_char(cur_char(p.currency)) == Some(p.currency));
    assert(s.subrange(17 + len, 33 + len) =~= hex_digits(p.value as int, 16));
    lemma_hex_round_trip(p.value as int, 16, 0);
    assert(s.subrange(33 + len, 49 + len) =~= hex_digits(p.market_cap as int, 16));
    lemma_hex_round_trip(p.market_cap as int, 16, 0);
    assert(s.subrange(49 + len, 65 + len) =~= hex_digits(p.change_24h + CHANGE_OFFSET, 16));
    lemma_hex_round_trip(p.change_24h + CHANGE_OFFSET, 16, 0);
    assert(((p.change_24h + CHANGE_OFFSET) - CHANGE_OFFSET) as i64 == p.change_24h);
}

proof fn lemma_hex_digits_len(v: int, n: nat)
    ensures
        hex_digits(v, n).len() == n,
    decreases n,
{
    if n > 0 {
        lemma_hex_digits_len(v / 16, (n - 1) as nat);
    }
}

/// Round trip of the snapshot codec: writing a record list and reading
/// it back yields exactly the same records, coin, currency, value,
/// market capitalization and change alike.
pub proof fn lemma_snapshot_round_trip(ps: Seq<PriceInfoV>)
    requires
        forall|i: int| 0 <= i < ps.len() ==> (#[trigger] ps[i]).coin.len() < pow16(16),
    ensures
        dec_records(enc_records(ps)) == Some(ps),
    decreases ps.len(),
{
    if ps.len() == 0 {
        assert(enc_records(ps).len() == 0);
        assert(ps =~= Seq::<PriceInfoV>::empty());
    } else {
        let p = ps[0];
        let rest = ps.drop_first();
        let tail = enc_records(rest);
        let s = enc_record(p) + tail;
        assert(enc_records(ps) == s);
        lemma_dec_enc_record(p, tail);
        let used = 65 + p.coin.len() as int;
        assert(s.len() == used + tail.len());
        assert(s.len() >= 16);
        assert(s.skip(used) =~= tail);
        assert(forall|i: int| 0 <= i < rest.len() ==> rest[i] == ps[i + 1]);
        lemma_snapshot_round_trip(rest);
        assert(0 < used <= s.len());
        assert(dec_records(s) == Some(seq![p] + rest));
        assert(seq![p] + rest =~= ps);
    }
}

} // verus!
