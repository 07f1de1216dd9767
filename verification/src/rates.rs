//! The rate table: currency-pair keys mapped to positive exchange rates.
use vstd::prelude::*;

use crate::dec::parse_dec_str;
use crate::dec::Dec;
use crate::dec::dec_from_str;
use crate::error::ArbiError;

verus! {

/// First entry whose key reads as `k`, if any.
pub open spec fn lookup_seq(s: Seq<(String, Dec)>, k: Seq<char>) -> Option<Dec>
    decreases s.len(),
{
    if s.len() == 0 {
        None
    } else if s[0].0@ == k {
        Some(s[0].1)
    } else {
        lookup_seq(s.drop_first(), k)
    }
}

/// First rate string paired with key `k`, if any.
pub open spec fn pairs_lookup(ps: Seq<(String, String)>, k: Seq<char>) -> Option<Seq<char>>
    decreases ps.len(),
{
    if ps.len() == 0 {
        None
    } else if ps[0].0@ == k {
        Some(ps[0].1@)
    } else {
        pairs_lookup(ps.drop_first(), k)
    }
}

/// A rate string that does not read as a decimal.
pub open spec fn pair_bad(p: (String, String)) -> bool {
    parse_dec_str(p.1@) is None
}

/// Index of the first pair whose rate string does not read, or -1.
pub open spec fn first_bad_pair(ps: Seq<(String, String)>) -> int
    decreases ps.len(),
{
    if ps.len() == 0 {
        -1
    } else {
        let q = first_bad_pair(ps.drop_last());
        if q >= 0 {
            q
        } else if pair_bad(ps.last()) {
            ps.len() - 1
        } else {
            -1
        }
    }
}

proof fn lemma_fb_all_good(ps: Seq<(String, String)>)
    requires
        forall|j: int| 0 <= j < ps.len() ==> !pair_bad(ps[j]),
    ensures
        first_bad_pair(ps) == -1,
    decreases ps.len(),
{
    if ps.len() > 0 {
        lemma_fb_all_good(ps.drop_last());
    }
}

proof fn lemma_fb_at(ps: Seq<(String, String)>, i: int)
    requires
        0 <= i < ps.len(),
        forall|j: int| 0 <= j < i ==> !pair_bad(ps[j]),
        pair_bad(ps[i]),
    ensures
        first_bad_pair(ps) == i,
    decreases ps.len(),
{
    if i == ps.len() - 1 {
        lemma_fb_all_good(ps.drop_last());
    } else {
        lemma_fb_at(ps.drop_last(), i);
    }
}

/// Appending an entry leaves earlier matches in place.
proof fn lemma_lookup_push(s: Seq<(String, Dec)>, e: (String, Dec), k: Seq<char>)
    ensures
        lookup_seq(s.push(e), k) == if lookup_seq(s, k) is Some {
            lookup_seq(s, k)
        } else if e.0@ == k {
            Some(e.1)
        } else {
            None::<Dec>
        },
    decreases s.len(),
{
    reveal_with_fuel(lookup_seq, 3);
    if s.len() == 0 {
        assert(s.push(e)[0] == e);
        assert(s.push(e).drop_first() =~= Seq::<(String, Dec)>::empty());
    } else {
        assert(s.push(e)[0] == s[0]);
        assert(s.push(e).drop_first() =~= s.drop_first().push(e));
        lemma_lookup_push(s.drop_first(), e, k);
    }
}

/// The same, over the raw string pairs.
proof fn lemma_pairs_lookup_push(ps: Seq<(String, String)>, e: (String, String), k: Seq<char>)
    ensures
        pairs_lookup(ps.push(e), k) == if pairs_lookup(ps, k) is Some {
            pairs_lookup(ps, k)
        } else if e.0@ == k {
            Some(e.1@)
        } else {
            None::<Seq<char>>
        },
    decreases ps.len(),
{
    reveal_with_fuel(pairs_lookup, 3);
    if ps.len() == 0 {
        assert(ps.push(e)[0] == e);
        assert(ps.push(e).drop_first() =~= Seq::<(String, String)>::empty());
    } else {
        assert(ps.push(e)[0] == ps[0]);
        assert(ps.push(e).drop_first() =~= ps.drop_first().push(e));
        lemma_pairs_lookup_push(ps.drop_first(), e, k);
    }
}

/// A key misses exactly when no entry holds it.
proof fn lemma_lookup_none(s: Seq<(String, Dec)>, k: Seq<char>)
    ensures
        lookup_seq(s, k) is None <==> forall|j: int| 0 <= j < s.len() ==> s[j].0@ != k,
    decreases s.len(),
{
    if s.len() > 0 {
        lemma_lookup_none(s.drop_first(), k);
        assert(forall|j: int| 1 <= j < s.len() ==> s.drop_first()[j - 1] == s[j]);
        if s[0].0@ != k && lookup_seq(s.drop_first(), k) is None {
            assert forall|j: int| 0 <= j < s.len() implies s[j].0@ != k by {
                if j > 0 {
                    assert(s.drop_first()[j - 1] == s[j]);
                }
            }
        }
    }
}

/// A mapping from currency-pair keys to positive exchange rates; keys are
/// unique and entries keep their given order, which fixes every iteration
/// order downstream.
pub struct RateTable {
    pub entries: Vec<(String, Dec)>,
}

impl RateTable {
    /// Rates are well formed and keys are unique.
    pub open spec fn wf(self) -> bool {
        (forall|i: int| 0 <= i < self.entries@.len() ==> (#[trigger] self.entries@[i]).1.wf())
            && (forall|i: int, j: int|
            0 <= i < j < self.entries@.len() ==> (#[trigger] self.entries@[i]).0@ != (
            #[trigger] self.entries@[j]).0@)
    }

    /// What the table maps `k` to.
    pub open spec fn spec_lookup(self, k: Seq<char>) -> Option<Dec> {
        lookup_seq(self.entries@, k)
    }

    /// An empty table.
    pub fn new() -> (r: RateTable)
        ensures
            r.wf(),
            r.entries@.len() == 0,
    {
        RateTable { entries: Vec::new() }
    }

    /// The rate stored under `key`, if any.
    pub fn lookup(&self, key: &String) -> (r: Option<&Dec>)
        ensures
            r is Some <==> self.spec_lookup(key@) is Some,
            r matches Some(d) ==> self.spec_lookup(key@) == Some(*d),
    {
        let n = self.entries.len();
        let mut i: usize = 0;
        while i < n
            invariant
                n == self.entries@.len(),
                i <= n,
                forall|j: int| 0 <= j < i ==> (#[trigger] self.entries@[j]).0@ != key@,
            decreases n - i,
        {
            if self.entries[i].0 == *key {
                proof {
                    lemma_lookup_at(self.entries@, key@, i as int);
                }
                return Some(&self.entries[i].1);
            }
            i = i + 1;
        }
        proof {
            lemma_lookup_none(self.entries@, key@);
        }
        None
    }
}

/// If every earlier key differs and the key at `i` matches, the lookup
/// lands on index `i`.
proof fn lemma_lookup_at(s: Seq<(String, Dec)>, k: Seq<char>, i: int)
    requires
        0 <= i < s.len(),
        forall|j: int| 0 <= j < i ==> (#[trigger] s[j]).0@ != k,
        s[i].0@ == k,
    ensures
        lookup_seq(s, k) == Some(s[i].1),
    decreases i,
{
    if i > 0 {
        assert(forall|j: int| 1 <= j < s.len() ==> s.drop_first()[j - 1] == s[j]);
        lemma_lookup_at(s.drop_first(), k, i - 1);
    }
}

/// Every rate a well-formed table hands out is well formed.
pub proof fn lemma_lookup_wf(t: RateTable, k: Seq<char>)
    requires
        t.wf(),
    ensures
        t.spec_lookup(k) matches Some(d) ==> d.wf(),
{
    lemma_lookup_seq_wf(t.entries@, k);
}

proof fn lemma_lookup_seq_wf(s: Seq<(String, Dec)>, k: Seq<char>)
    requires
        forall|i: int| 0 <= i < s.len() ==> (#[trigger] s[i]).1.wf(),
    ensures
        lookup_seq(s, k) matches Some(d) ==> d.wf(),
    decreases s.len(),
{
    if s.len() > 0 {
        assert(forall|i: int| 0 <= i < s.len() - 1 ==> s.drop_first()[i] == s[i + 1]);
        lemma_lookup_seq_wf(s.drop_first(), k);
    }
}

/// The shape of a raw rate listing as it arrives from the collaborator
/// that fetched it: pair-key strings beside decimal-rate strings.
pub struct RateResponse {
    pub rates: Vec<(String, String)>,
}

impl RateResponse {
    /// Reads every rate string as an exact decimal and builds the table.
    /// The first string that does not read aborts with
    /// `ParseBigDecimalError`; when one key is listed twice, the first
    /// listing wins, as each key denotes one rate.
    pub fn parsed_as_bigdecimal(rates: &Vec<(String, String)>) -> (r: Result<
        RateTable,
        ArbiError,
    >)
        ensures
            r is Ok <==> first_bad_pair(rates@) == -1,
            r matches Ok(t) ==> t.wf() && forall|k: Seq<char>|
                (#[trigger] t.spec_lookup(k)) is Some <==> pairs_lookup(rates@, k) is Some,
            r matches Ok(t) ==> forall|k: Seq<char>|
                (#[trigger] t.spec_lookup(k)) matches Some(d) ==> {
                    &&& pairs_lookup(rates@, k) matches Some(src)
                    &&& parse_dec_str(src) == Some((d.mant(), d.scale as nat))
                    &&& d.wf()
                },
            r matches Err(e) ==> {
                &&& first_bad_pair(rates@) >= 0
                &&& e matches ArbiError::ParseBigDecimalError(s) && s@ == rates@[first_bad_pair(
                    rates@,
                )].1@
            },
    {
        let n = rates.len();
        let mut table = RateTable::new();
        let mut i: usize = 0;
        while i < n
            invariant
                n == rates@.len(),
                i <= n,
                table.wf(),
                forall|j: int| 0 <= j < i ==> !pair_bad(rates@[j]),
                forall|k: Seq<char>|
                    (#[trigger] lookup_seq(table.entries@, k)) is Some <==> pairs_lookup(
                        rates@.take(i as int),
                        k,
                    ) is Some,
                forall|k: Seq<char>|
                    (#[trigger] lookup_seq(table.entries@, k)) matches Some(d) ==> {
                        &&& pairs_lookup(rates@.take(i as int), k) matches Some(src)
                        &&& parse_dec_str(src) == Some((d.mant(), d.scale as nat))
                        &&& d.wf()
                    },
            decreases n - i,
        {
            let key = &rates[i].0;
            let val = &rates[i].1;
            proof {
                assert(rates@.take(i + 1) =~= rates@.take(i as int).push(rates@[i as int]));
            }
            match dec_from_str(val.as_str()) {
                None => {
                    proof {
                        lemma_fb_at(rates@, i as int);
                    }
                    return Err(ArbiError::ParseBigDecimalError(val.clone()));
                },
                Some(d) => {
                    let ghost olde = table.entries@;
                    let present = table.lookup(key).is_some();
                    if !present {
                        proof {
                            lemma_lookup_none(table.entries@, key@);
                        }
                        let entry = (key.clone(), d);
                        table.entries.push(entry);
                        proof {
                            assert(table.entries@ == olde.push(entry));
                            assert forall|a: int, b: int|
                                0 <= a < b < table.entries@.len() implies (
                            #[trigger] table.entries@[a]).0@ != (
                            #[trigger] table.entries@[b]).0@ by {
                                if b == olde.len() as int {
                                    assert(olde[a].0@ != key@);
                                } else {
                                    assert(olde[a].0@ != olde[b].0@);
                                }
                            }
                        }
                    }
                    proof {
                        assert forall|k: Seq<char>|
                            ((#[trigger] lookup_seq(table.entries@, k)) is Some <==> pairs_lookup(
                                rates@.take(i + 1),
                                k,
                            ) is Some) && ((lookup_seq(table.entries@, k)) matches Some(d2) ==> {
                                &&& pairs_lookup(rates@.take(i + 1), k) matches Some(src)
                                &&& parse_dec_str(src) == Some((d2.mant(), d2.scale as nat))
                                &&& d2.wf()
                            }) by {
                            lemma_pairs_lookup_push(rates@.take(i as int), rates@[i as int], k);
                            assert(lookup_seq(olde, k) is Some <==> pairs_lookup(
                                rates@.take(i as int),
                                k,
                            ) is Some);
                            if !present {
                                lemma_lookup_push(olde, table.entries@.last(), k);
                            }
                        }
                    }
                },
            }
            i = i + 1;
        }
        proof {
            assert(rates@.take(n as int) =~= rates@);
            lemma_fb_all_good(rates@);
        }
        Ok(table)
    }
}

/// Every rate literal of the bundled sample set reads as the decimal
/// it writes.
#[verifier::rlimit(60)]
proof fn lemma_default_rate_strings_parse()
    ensures
        parse_dec_str("1.0000000000"@) == Some((10000000000int, 10nat)),
        parse_dec_str("0.0000086866"@) == Some((86866int, 10nat)),
        parse_dec_str("0.2053990550"@) == Some((2053990550int, 10nat)),
        parse_dec_str("0.2017539914"@) == Some((2017539914int, 10nat)),
        parse_dec_str("116352.2654440156"@) == Some((1163522654440156int, 10nat)),
        parse_dec_str("23524.1391553039"@) == Some((235241391553039int, 10nat)),
        parse_dec_str("23258.8865583847"@) == Some((232588865583847int, 10nat)),
        parse_dec_str("4.9320433378"@) == Some((49320433378int, 10nat)),
        parse_dec_str("0.0000429088"@) == Some((429088int, 10nat)),
        parse_dec_str("0.9907652193"@) == Some((9907652193int, 10nat)),
        parse_dec_str("5.0427577751"@) == Some((50427577751int, 10nat)),
        parse_dec_str("0.0000435564"@) == Some((435564int, 10nat)),
        parse_dec_str("1.0211378960"@) == Some((10211378960int, 10nat)),
{
    reveal_strlit("1.0000000000");
    reveal_strlit("0.0000086866");
    reveal_strlit("0.2053990550");
    reveal_strlit("0.2017539914");
    reveal_strlit("116352.2654440156");
    reveal_strlit("23524.1391553039");
    reveal_strlit("23258.8865583847");
    reveal_strlit("4.9320433378");
    reveal_strlit("0.0000429088");
    reveal_strlit("0.9907652193");
    reveal_strlit("5.0427577751");
    reveal_strlit("0.0000435564");
    reveal_strlit("1.0211378960");
    let s0 = "1.0000000000"@;
    assert(s0.take(0) =~= Seq::<char>::empty());
    assert(crate::dec::parse_mag(s0.take(0)) == Some((0int, None::<nat>, 0nat)));
    assert(s0.take(1).drop_last() =~= s0.take(0));
    assert(s0.take(1).last() == s0[0]);
    assert(crate::dec::parse_mag(s0.take(1)) == Some((1int, None::<nat>, 1nat)));
    assert(s0.take(2).drop_last() =~= s0.take(1));
    assert(s0.take(2).last() == s0[1]);
    assert(crate::dec::parse_mag(s0.take(2)) == Some((1int, Some(0nat), 1nat)));
    assert(s0.take(3).drop_last() =~= s0.take(2));
    assert(s0.take(3).last() == s0[2]);
    assert(crate::dec::parse_mag(s0.take(3)) == Some((10int, Some(1nat), 2nat)));
    assert(s0.take(4).drop_last() =~= s0.take(3));
    assert(s0.take(4).last() == s0[3]);
    assert(crate::dec::parse_mag(s0.take(4)) == Some((100int, Some(2nat), 3nat)));
    assert(s0.take(5).drop_last() =~= s0.take(4));
    assert(s0.take(5).last() == s0[4]);
    assert(crate::dec::parse_mag(s0.take(5)) == Some((1000int, Some(3nat), 4nat)));
    assert(s0.take(6).drop_last() =~= s0.take(5));
    assert(s0.take(6).last() == s0[5]);
    assert(crate::dec::parse_mag(s0.take(6)) == Some((10000int, Some(4nat), 5nat)));
    assert(s0.take(7).drop_last() =~= s0.take(6));
    assert(s0.take(7).last() == s0[6]);
    assert(crate::dec::parse_mag(s0.take(7)) == Some((100000int, Some(5nat), 6nat)));
    assert(s0.take(8).drop_last() =~= s0.take(7));
    assert(s0.take(8).last() == s0[7]);
    assert(crate::dec::parse_mag(s0.take(8)) == Some((1000000int, Some(6nat), 7nat)));
    assert(s0.take(9).drop_last() =~= s0.take(8));
    assert(s0.take(9).last() == s0[8]);
    assert(crate::dec::parse_mag(s0.take(9)) == Some((10000000int, Some(7nat), 8nat)));
    assert(s0.take(10).drop_last() =~= s0.take(9));
    assert(s0.take(10).last() == s0[9]);
    assert(crate::dec::parse_mag(s0.take(10)) == Some((100000000int, Some(8nat), 9nat)));
    assert(s0.take(11).drop_last() =~= s0.take(10));
    assert(s0.take(11).last() == s0[10]);
    assert(crate::dec::parse_mag(s0.take(11)) == Some((1000000000int, Some(9nat), 10nat)));
    assert(s0.take(12).drop_last() =~= s0.take(11));
    assert(s0.take(12).last() == s0[11]);
    assert(crate::dec::parse_mag(s0.take(12)) == Some((10000000000int, Some(10nat), 11nat)));
    assert(s0.take(12) =~= s0);
    let s1 = "0.0000086866"@;
    assert(s1.take(0) =~= Seq::<char>::empty());
    assert(crate::dec::parse_mag(s1.take(0)) == Some((0int, None::<nat>, 0nat)));
    assert(s1.take(1).drop_last() =~= s1.take(0));
    assert(s1.take(1).last() == s1[0]);
    assert(crate::dec::parse_mag(s1.take(1)) == Some((0int, None::<nat>, 1nat)));
    assert(s1.take(2).drop_last() =~= s1.take(1));
    assert(s1.take(2).last() == s1[1]);
    assert(crate::dec::parse_mag(s1.take(2)) == Some((0int, Some(0nat), 1nat)));
    assert(s1.take(3).drop_last() =~= s1.take(2));
    assert(s1.take(3).last() == s1[2]);
    assert(crate::dec::parse_mag(s1.take(3)) == Some((0int, Some(1nat), 2nat)));
    assert(s1.take(4).drop_last() =~= s1.take(3));
    assert(s1.take(4).last() == s1[3]);
    assert(crate::dec::parse_mag(s1.take(4)) == Some((0int, Some(2nat), 3nat)));
    assert(s1.take(5).drop_last() =~= s1.take(4));
    assert(s1.take(5).last() == s1[4]);
    assert(crate::dec::parse_mag(s1.take(5)) == Some((0int, Some(3nat), 4nat)));
    assert(s1.take(6).drop_last() =~= s1.take(5));
    assert(s1.take(6).last() == s1[5]);
    assert(crate::dec::parse_mag(s1.take(6)) == Some((0int, Some(4nat), 5nat)));
    assert(s1.take(7).drop_last() =~= s1.take(6));
    assert(s1.take(7).last() == s1[6]);
    assert(crate::dec::parse_mag(s1.take(7)) == Some((0int, Some(5nat), 6nat)));
    assert(s1.take(8).drop_last() =~= s1.take(7));
    assert(s1.take(8).last() == s1[7]);
    assert(crate::dec::parse_mag(s1.take(8)) == Some((8int, Some(6nat), 7nat)));
    assert(s1.take(9).drop_last() =~= s1.take(8));
    assert(s1.take(9).last() == s1[8]);
    assert(crate::dec::parse_mag(s1.take(9)) == Some((86int, Some(7nat), 8nat)));
    assert(s1.take(10).drop_last() =~= s1.take(9));
    assert(s1.take(10).last() == s1[9]);
    assert(crate::dec::parse_mag(s1.take(10)) == Some((868int, Some(8nat), 9nat)));
    assert(s1.take(11).drop_last() =~= s1.take(10));
    assert(s1.take(11).last() == s1[10]);
    assert(crate::dec::parse_mag(s1.take(11)) == Some((8686int, Some(9nat), 10nat)));
    assert(s1.take(12).drop_last() =~= s1.take(11));
    assert(s1.take(12).last() == s1[11]);
    assert(crate::dec::parse_mag(s1.take(12)) == Some((86866int, Some(10nat), 11nat)));
    assert(s1.take(12) =~= s1);
    let s2 = "0.2053990550"@;
    assert(s2.take(0) =~= Seq::<char>::empty());
    assert(crate::dec::parse_mag(s2.take(0)) == Some((0int, None::<nat>, 0nat)));
    assert(s2.take(1).drop_last() =~= s2.take(0));
    assert(s2.take(1).last() == s2[0]);
    assert(crate::dec::parse_mag(s2.take(1)) == Some((0int, None::<nat>, 1nat)));
    assert(s2.take(2).drop_last() =~= s2.take(1));
    assert(s2.take(2).last() == s2[1]);
    assert(crate::dec::parse_mag(s2.take(2)) == Some((0int, Some(0nat), 1nat)));
    assert(s2.take(3).drop_last() =~= s2.take(2));
    assert(s2.take(3).last() == s2[2]);
    assert(crate::dec::parse_mag(s2.take(3)) == Some((2int, Some(1nat), 2nat)));
    assert(s2.take(4).drop_last() =~= s2.take(3));
    assert(s2.take(4).last() == s2[3]);
    assert(crate::dec::parse_mag(s2.take(4)) == Some((20int, Some(2nat), 3nat)));
    assert(s2.take(5).drop_last() =~= s2.take(4));
    assert(s2.take(5).last() == s2[4]);
    assert(crate::dec::parse_mag(s2.take(5)) == Some((205int, Some(3nat), 4nat)));
    assert(s2.take(6).drop_last() =~= s2.take(5));
    assert(s2.take(6).last() == s2[5]);
    assert(crate::dec::parse_mag(s2.take(6)) == Some((2053int, Some(4nat), 5nat)));
    assert(s2.take(7).drop_last() =~= s2.take(6));
    assert(s2.take(7).last() == s2[6]);
    assert(crate::dec::parse_mag(s2.take(7)) == Some((20539int, Some(5nat), 6nat)));
    assert(s2.take(8).drop_last() =~= s2.take(7));
    assert(s2.take(8).last() == s2[7]);
    assert(crate::dec::parse_mag(s2.take(8)) == Some((205399int, Some(6nat), 7nat)));
    assert(s2.take(9).drop_last() =~= s2.take(8));
    assert(s2.take(9).last() == s2[8]);
    assert(crate::dec::parse_mag(s2.take(9)) == Some((2053990int, Some(7nat), 8nat)));
    assert(s2.take(10).drop_last() =~= s2.take(9));
    assert(s2.take(10).last() == s2[9]);
    assert(crate::dec::parse_mag(s2.take(10)) == Some((20539905int, Some(8nat), 9nat)));
    assert(s2.take(11).drop_last() =~= s2.take(10));
    assert(s2.take(11).last() == s2[10]);
    assert(crate::dec::parse_mag(s2.take(11)) == Some((205399055int, Some(9nat), 10nat)));
    assert(s2.take(12).drop_last() =~= s2.take(11));
    assert(s2.take(12).last() == s2[11]);
    assert(crate::dec::parse_mag(s2.take(12)) == Some((2053990550int, Some(10nat), 11nat)));
    assert(s2.take(12) =~= s2);
    let s3 = "0.2017539914"@;
    assert(s3.take(0) =~= Seq::<char>::empty());
    assert(crate::dec::parse_mag(s3.take(0)) == Some((0int, None::<nat>, 0nat)));
    assert(s3.take(1).drop_last() =~= s3.take(0));
    assert(s3.take(1).last() == s3[0]);
    assert(crate::dec::parse_mag(s3.take(1)) == Some((0int, None::<nat>, 1nat)));
    assert(s3.take(2).drop_last() =~= s3.take(1));
    assert(s3.take(2).last() == s3[1]);
    assert(crate::dec::parse_mag(s3.take(2)) == Some((0int, Some(0nat), 1nat)));
    assert(s3.take(3).drop_last() =~= s3.take(2));
    assert(s3.take(3).last() == s3[2]);
    assert(crate::dec::parse_mag(s3.take(3)) == Some((2int, Some(1nat), 2nat)));
    assert(s3.take(4).drop_last() =~= s3.take(3));
    assert(s3.take(4).last() == s3[3]);
    assert(crate::dec::parse_mag(s3.take(4)) == Some((20int, Some(2nat), 3nat)));
    assert(s3.take(5).drop_last() =~= s3.take(4));
    assert(s3.take(5).last() == s3[4]);
    assert(crate::dec::parse_mag(s3.take(5)) == Some((201int, Some(3nat), 4nat)));
    assert(s3.take(6).drop_last() =~= s3.take(5));
    assert(s3.take(6).last() == s3[5]);
    assert(crate::dec::parse_mag(s3.take(6)) == Some((2017int, Some(4nat), 5nat)));
    assert(s3.take(7).drop_last() =~= s3.take(6));
    assert(s3.take(7).last() == s3[6]);
    assert(crate::dec::parse_mag(s3.take(7)) == Some((20175int, Some(5nat), 6nat)));
    assert(s3.take(8).drop_last() =~= s3.take(7));
    assert(s3.take(8).last() == s3[7]);
    assert(crate::dec::parse_mag(s3.take(8)) == Some((201753int, Some(6nat), 7nat)));
    assert(s3.take(9).drop_last() =~= s3.take(8));
    assert(s3.take(9).last() == s3[8]);
    assert(crate::dec::parse_mag(s3.take(9)) == Some((2017539int, Some(7nat), 8nat)));
    assert(s3.take(10).drop_last() =~= s3.take(9));
    assert(s3.take(10).last() == s3[9]);
    assert(crate::dec::parse_mag(s3.take(10)) == Some((20175399int, Some(8nat), 9nat)));
    assert(s3.take(11).drop_last() =~= s3.take(10));
    assert(s3.take(11).last() == s3[10]);
    assert(crate::dec::parse_mag(s3.take(11)) == Some((201753991int, Some(9nat), 10nat)));
    assert(s3.take(12).drop_last() =~= s3.take(11));
    assert(s3.take(12).last() == s3[11]);
    assert(crate::dec::parse_mag(s3.take(12)) == Some((2017539914int, Some(10nat), 11nat)));
    assert(s3.take(12) =~= s3);
    let s4 = "116352.2654440156"@;
    assert(s4.take(0) =~= Seq::<char>::empty());
    assert(crate::dec::parse_mag(s4.take(0)) == Some((0int, None::<nat>, 0nat)));
    assert(s4.take(1).drop_last() =~= s4.take(0));
    assert(s4.take(1).last() == s4[0]);
    assert(crate::dec::parse_mag(s4.take(1)) == Some((1int, None::<nat>, 1nat)));
    assert(s4.take(2).drop_last() =~= s4.take(1));
    assert(s4.take(2).last() == s4[1]);
    assert(crate::dec::parse_mag(s4.take(2)) == Some((11int, None::<nat>, 2nat)));
    assert(s4.take(3).drop_last() =~= s4.take(2));
    assert(s4.take(3).last() == s4[2]);
    assert(crate::dec::parse_mag(s4.take(3)) == Some((116int, None::<nat>, 3nat)));
    assert(s4.take(4).drop_last() =~= s4.take(3));
    assert(s4.take(4).last() == s4[3]);
    assert(crate::dec::parse_mag(s4.take(4)) == Some((1163int, None::<nat>, 4nat)));
    assert(s4.take(5).drop_last() =~= s4.take(4));
    assert(s4.take(5).last() == s4[4]);
    assert(crate::dec::parse_mag(s4.take(5)) == Some((11635int, None::<nat>, 5nat)));
    assert(s4.take(6).drop_last() =~= s4.take(5));
    assert(s4.take(6).last() == s4[5]);
    assert(crate::dec::parse_mag(s4.take(6)) == Some((116352int, None::<nat>, 6nat)));
    assert(s4.take(7).drop_last() =~= s4.take(6));
    assert(s4.take(7).last() == s4[6]);
    assert(crate::dec::parse_mag(s4.take(7)) == Some((116352int, Some(0nat), 6nat)));
    assert(s4.take(8).drop_last() =~= s4.take(7));
    assert(s4.take(8).last() == s4[7]);
    assert(crate::dec::parse_mag(s4.take(8)) == Some((1163522int, Some(1nat), 7nat)));
    assert(s4.take(9).drop_last() =~= s4.take(8));
    assert(s4.take(9).last() == s4[8]);
    assert(crate::dec::parse_mag(s4.take(9)) == Some((11635226int, Some(2nat), 8nat)));
    assert(s4.take(10).drop_last() =~= s4.take(9));
    assert(s4.take(10).last() == s4[9]);
    assert(crate::dec::parse_mag(s4.take(10)) == Some((116352265int, Some(3nat), 9nat)));
    assert(s4.take(11).drop_last() =~= s4.take(10));
    assert(s4.take(11).last() == s4[10]);
    assert(crate::dec::parse_mag(s4.take(11)) == Some((1163522654int, Some(4nat), 10nat)));
    assert(s4.take(12).drop_last() =~= s4.take(11));
    assert(s4.take(12).last() == s4[11]);
    assert(crate::dec::parse_mag(s4.take(12)) == Some((11635226544int, Some(5nat), 11nat)));
    assert(s4.take(13).drop_last() =~= s4.take(12));
    assert(s4.take(13).last() == s4[12]);
    assert(crate::dec::parse_mag(s4.take(13)) == Some((116352265444int, Some(6nat), 12nat)));
    assert(s4.take(14).drop_last() =~= s4.take(13));
    assert(s4.take(14).last() == s4[13]);
    assert(crate::dec::parse_mag(s4.take(14)) == Some((1163522654440int, Some(7nat), 13nat)));
    assert(s4.take(15).drop_last() =~= s4.take(14));
    assert(s4.take(15).last() == s4[14]);
    assert(crate::dec::parse_mag(s4.take(15)) == Some((11635226544401int, Some(8nat), 14nat)));
    assert(s4.take(16).drop_last() =~= s4.take(15));
    assert(s4.take(16).last() == s4[15]);
    assert(crate::dec::parse_mag(s4.take(16)) == Some((116352265444015int, Some(9nat), 15nat)));
    assert(s4.take(17).drop_last() =~= s4.take(16));
    assert(s4.take(17).last() == s4[16]);
    assert(crate::dec::parse_mag(s4.take(17)) == Some((1163522654440156int, Some(10nat), 16nat)));
    assert(s4.take(17) =~= s4);
    let s5 = "23524.1391553039"@;
    assert(s5.take(0) =~= Seq::<char>::empty());
    assert(crate::dec::parse_mag(s5.take(0)) == Some((0int, None::<nat>, 0nat)));
    assert(s5.take(1).drop_last() =~= s5.take(0));
    assert(s5.take(1).last() == s5[0]);
    assert(crate::dec::parse_mag(s5.take(1)) == Some((2int, None::<nat>, 1nat)));
    assert(s5.take(2).drop_last() =~= s5.take(1));
    assert(s5.take(2).last() == s5[1]);
    assert(crate::dec::parse_mag(s5.take(2)) == Some((23int, None::<nat>, 2nat)));
    assert(s5.take(3).drop_last() =~= s5.take(2));
    assert(s5.take(3).last() == s5[2]);
    assert(crate::dec::parse_mag(s5.take(3)) == Some((235int, None::<nat>, 3nat)));
    assert(s5.take(4).drop_last() =~= s5.take(3));
    assert(s5.take(4).last() == s5[3]);
    assert(crate::dec::parse_mag(s5.take(4)) == Some((2352int, None::<nat>, 4nat)));
    assert(s5.take(5).drop_last() =~= s5.take(4));
    assert(s5.take(5).last() == s5[4]);
    assert(crate::dec::parse_mag(s5.take(5)) == Some((23524int, None::<nat>, 5nat)));
    assert(s5.take(6).drop_last() =~= s5.take(5));
    assert(s5.take(6).last() == s5[5]);
    assert(crate::dec::parse_mag(s5.take(6)) == Some((23524int, Some(0nat), 5nat)));
    assert(s5.take(7).drop_last() =~= s5.take(6));
    assert(s5.take(7).last() == s5[6]);
    assert(crate::dec::parse_mag(s5.take(7)) == Some((235241int, Some(1nat), 6nat)));
    assert(s5.take(8).drop_last() =~= s5.take(7));
    assert(s5.take(8).last() == s5[7]);
    assert(crate::dec::parse_mag(s5.take(8)) == Some((2352413int, Some(2nat), 7nat)));
    assert(s5.take(9).drop_last() =~= s5.take(8));
    assert(s5.take(9).last() == s5[8]);
    assert(crate::dec::parse_mag(s5.take(9)) == Some((23524139int, Some(3nat), 8nat)));
    assert(s5.take(10).drop_last() =~= s5.take(9));
    assert(s5.take(10).last() == s5[9]);
    assert(crate::dec::parse_mag(s5.take(10)) == Some((235241391int, Some(4nat), 9nat)));
    assert(s5.take(11).drop_last() =~= s5.take(10));
    assert(s5.take(11).last() == s5[10]);
    assert(crate::dec::parse_mag(s5.take(11)) == Some((2352413915int, Some(5nat), 10nat)));
    assert(s5.take(12).drop_last() =~= s5.take(11));
    assert(s5.take(12).last() == s5[11]);
    assert(crate::dec::parse_mag(s5.take(12)) == Some((23524139155int, Some(6nat), 11nat)));
    assert(s5.take(13).drop_last() =~= s5.take(12));
    assert(s5.take(13).last() == s5[12]);
    assert(crate::dec::parse_mag(s5.take(13)) == Some((235241391553int, Some(7nat), 12nat)));
    assert(s5.take(14).drop_last() =~= s5.take(13));
    assert(s5.take(14).last() == s5[13]);
    assert(crate::dec::parse_mag(s5.take(14)) == Some((2352413915530int, Some(8nat), 13nat)));
    assert(s5.take(15).drop_last() =~= s5.take(14));
    assert(s5.take(15).last() == s5[14]);
    assert(crate::dec::parse_mag(s5.take(15)) == Some((23524139155303int, Some(9nat), 14nat)));
    assert(s5.take(16).drop_last() =~= s5.take(15));
    assert(s5.take(16).last() == s5[15]);
    assert(crate::dec::parse_mag(s5.take(16)) == Some((235241391553039int, Some(10nat), 15nat)));
    assert(s5.take(16) =~= s5);
    let s6 = "23258.8865583847"@;
    assert(s6.take(0) =~= Seq::<char>::empty());
    assert(crate::dec::parse_mag(s6.take(0)) == Some((0int, None::<nat>, 0nat)));
    assert(s6.take(1).drop_last() =~= s6.take(0));
    assert(s6.take(1).last() == s6[0]);
    assert(crate::dec::parse_mag(s6.take(1)) == Some((2int, None::<nat>, 1nat)));
    assert(s6.take(2).drop_last() =~= s6.take(1));
    assert(s6.take(2).last() == s6[1]);
    assert(crate::dec::parse_mag(s6.take(2)) == Some((23int, None::<nat>, 2nat)));
    assert(s6.take(3).drop_last() =~= s6.take(2));
    assert(s6.take(3).last() == s6[2]);
    assert(crate::dec::parse_mag(s6.take(3)) == Some((232int, None::<nat>, 3nat)));
    assert(s6.take(4).drop_last() =~= s6.take(3));
    assert(s6.take(4).last() == s6[3]);
    assert(crate::dec::parse_mag(s6.take(4)) == Some((2325int, None::<nat>, 4nat)));
    assert(s6.take(5).drop_last() =~= s6.take(4));
    assert(s6.take(5).last() == s6[4]);
    assert(crate::dec::parse_mag(s6.take(5)) == Some((23258int, None::<nat>, 5nat)));
    assert(s6.take(6).drop_last() =~= s6.take(5));
    assert(s6.take(6).last() == s6[5]);
    assert(crate::dec::parse_mag(s6.take(6)) == Some((23258int, Some(0nat), 5nat)));
    assert(s6.take(7).drop_last() =~= s6.take(6));
    assert(s6.take(7).last() == s6[6]);
    assert(crate::dec::parse_mag(s6.take(7)) == Some((232588int, Some(1nat), 6nat)));
    assert(s6.take(8).drop_last() =~= s6.take(7));
    assert(s6.take(8).last() == s6[7]);
    assert(crate::dec::parse_mag(s6.take(8)) == Some((2325888int, Some(2nat), 7nat)));
    assert(s6.take(9).drop_last() =~= s6.take(8));
    assert(s6.take(9).last() == s6[8]);
    assert(crate::dec::parse_mag(s6.take(9)) == Some((23258886int, Some(3nat), 8nat)));
    assert(s6.take(10).drop_last() =~= s6.take(9));
    assert(s6.take(10).last() == s6[9]);
    assert(crate::dec::parse_mag(s6.take(10)) == Some((232588865int, Some(4nat), 9nat)));
    assert(s6.take(11).drop_last() =~= s6.take(10));
    assert(s6.take(11).last() == s6[10]);
    assert(crate::dec::parse_mag(s6.take(11)) == Some((2325888655int, Some(5nat), 10nat)));
    assert(s6.take(12).drop_last() =~= s6.take(11));
    assert(s6.take(12).last() == s6[11]);
    assert(crate::dec::parse_mag(s6.take(12)) == Some((23258886558int, Some(6nat), 11nat)));
    assert(s6.take(13).drop_last() =~= s6.take(12));
    assert(s6.take(13).last() == s6[12]);
    assert(crate::dec::parse_mag(s6.take(13)) == Some((232588865583int, Some(7nat), 12nat)));
    assert(s6.take(14).drop_last() =~= s6.take(13));
    assert(s6.take(14).last() == s6[13]);
    assert(crate::dec::parse_mag(s6.take(14)) == Some((2325888655838int, Some(8nat), 13nat)));
    assert(s6.take(15).drop_last() =~= s6.take(14));
    assert(s6.take(15).last() == s6[14]);
    assert(crate::dec::parse_mag(s6.take(15)) == Some((23258886558384int, Some(9nat), 14nat)));
    assert(s6.take(16).drop_last() =~= s6.take(15));
    assert(s6.take(16).last() == s6[15]);
    assert(crate::dec::parse_mag(s6.take(16)) == Some((232588865583847int, Some(10nat), 15nat)));
    assert(s6.take(16) =~= s6);
    let s7 = "4.9320433378"@;
    assert(s7.take(0) =~= Seq::<char>::empty());
    assert(crate::dec::parse_mag(s7.take(0)) == Some((0int, None::<nat>, 0nat)));
    assert(s7.take(1).drop_last() =~= s7.take(0));
    assert(s7.take(1).last() == s7[0]);
    assert(crate::dec::parse_mag(s7.take(1)) == Some((4int, None::<nat>, 1nat)));
    assert(s7.take(2).drop_last() =~= s7.take(1));
    assert(s7.take(2).last() == s7[1]);
    assert(crate::dec::parse_mag(s7.take(2)) == Some((4int, Some(0nat), 1nat)));
    assert(s7.take(3).drop_last() =~= s7.take(2));
    assert(s7.take(3).last() == s7[2]);
    assert(crate::dec::parse_mag(s7.take(3)) == Some((49int, Some(1nat), 2nat)));
    assert(s7.take(4).drop_last() =~= s7.take(3));
    assert(s7.take(4).last() == s7[3]);
    assert(crate::dec::parse_mag(s7.take(4)) == Some((493int, Some(2nat), 3nat)));
    assert(s7.take(5).drop_last() =~= s7.take(4));
    assert(s7.take(5).last() == s7[4]);
    assert(crate::dec::parse_mag(s7.take(5)) == Some((4932int, Some(3nat), 4nat)));
    assert(s7.take(6).drop_last() =~= s7.take(5));
    assert(s7.take(6).last() == s7[5]);
    assert(crate::dec::parse_mag(s7.take(6)) == Some((49320int, Some(4nat), 5nat)));
    assert(s7.take(7).drop_last() =~= s7.take(6));
    assert(s7.take(7).last() == s7[6]);
    assert(crate::dec::parse_mag(s7.take(7)) == Some((493204int, Some(5nat), 6nat)));
    assert(s7.take(8).drop_last() =~= s7.take(7));
    assert(s7.take(8).last() == s7[7]);
    assert(crate::dec::parse_mag(s7.take(8)) == Some((4932043int, Some(6nat), 7nat)));
    assert(s7.take(9).drop_last() =~= s7.take(8));
    assert(s7.take(9).last() == s7[8]);
    assert(crate::dec::parse_mag(s7.take(9)) == Some((49320433int, Some(7nat), 8nat)));
    assert(s7.take(10).drop_last() =~= s7.take(9));
    assert(s7.take(10).last() == s7[9]);
    assert(crate::dec::parse_mag(s7.take(10)) == Some((493204333int, Some(8nat), 9nat)));
    assert(s7.take(11).drop_last() =~= s7.take(10));
    assert(s7.take(11).last() == s7[10]);
    assert(crate::dec::parse_mag(s7.take(11)) == Some((4932043337int, Some(9nat), 10nat)));
    assert(s7.take(12).drop_last() =~= s7.take(11));
    assert(s7.take(12).last() == s7[11]);
    assert(crate::dec::parse_mag(s7.take(12)) == Some((49320433378int, Some(10nat), 11nat)));
    assert(s7.take(12) =~= s7);
    let s8 = "0.0000429088"@;
    assert(s8.take(0) =~= Seq::<char>::empty());
    assert(crate::dec::parse_mag(s8.take(0)) == Some((0int, None::<nat>, 0nat)));
    assert(s8.take(1).drop_last() =~= s8.take(0));
    assert(s8.take(1).last() == s8[0]);
    assert(crate::dec::parse_mag(s8.take(1)) == Some((0int, None::<nat>, 1nat)));
    assert(s8.take(2).drop_last() =~= s8.take(1));
    assert(s8.take(2).last() == s8[1]);
    assert(crate::dec::parse_mag(s8.take(2)) == Some((0int, Some(0nat), 1nat)));
    assert(s8.take(3).drop_last() =~= s8.take(2));
    assert(s8.take(3).last() == s8[2]);
    assert(crate::dec::parse_mag(s8.take(3)) == Some((0int, Some(1nat), 2nat)));
    assert(s8.take(4).drop_last() =~= s8.take(3));
    assert(s8.take(4).last() == s8[3]);
    assert(crate::dec::parse_mag(s8.take(4)) == Some((0int, Some(2nat), 3nat)));
    assert(s8.take(5).drop_last() =~= s8.take(4));
    assert(s8.take(5).last() == s8[4]);
    assert(crate::dec::parse_mag(s8.take(5)) == Some((0int, Some(3nat), 4nat)));
    assert(s8.take(6).drop_last() =~= s8.take(5));
    assert(s8.take(6).last() == s8[5]);
    assert(crate::dec::parse_mag(s8.take(6)) == Some((0int, Some(4nat), 5nat)));
    assert(s8.take(7).drop_last() =~= s8.take(6));
    assert(s8.take(7).last() == s8[6]);
    assert(crate::dec::parse_mag(s8.take(7)) == Some((4int, Some(5nat), 6nat)));
    assert(s8.take(8).drop_last() =~= s8.take(7));
    assert(s8.take(8).last() == s8[7]);
    assert(crate::dec::parse_mag(s8.take(8)) == Some((42int, Some(6nat), 7nat)));
    assert(s8.take(9).drop_last() =~= s8.take(8));
    assert(s8.take(9).last() == s8[8]);
    assert(crate::dec::parse_mag(s8.take(9)) == Some((429int, Some(7nat), 8nat)));
    assert(s8.take(10).drop_last() =~= s8.take(9));
    assert(s8.take(10).last() == s8[9]);
    assert(crate::dec::parse_mag(s8.take(10)) == Some((4290int, Some(8nat), 9nat)));
    assert(s8.take(11).drop_last() =~= s8.take(10));
    assert(s8.take(11).last() == s8[10]);
    assert(crate::dec::parse_mag(s8.take(11)) == Some((42908int, Some(9nat), 10nat)));
    assert(s8.take(12).drop_last() =~= s8.take(11));
    assert(s8.take(12).last() == s8[11]);
    assert(crate::dec::parse_mag(s8.take(12)) == Some((429088int, Some(10nat), 11nat)));
    assert(s8.take(12) =~= s8);
    let s9 = "0.9907652193"@;
    assert(s9.take(0) =~= Seq::<char>::empty());
    assert(crate::dec::parse_mag(s9.take(0)) == Some((0int, None::<nat>, 0nat)));
    assert(s9.take(1).drop_last() =~= s9.take(0));
    assert(s9.take(1).last() == s9[0]);
    assert(crate::dec::parse_mag(s9.take(1)) == Some((0int, None::<nat>, 1nat)));
    assert(s9.take(2).drop_last() =~= s9.take(1));
    assert(s9.take(2).last() == s9[1]);
    assert(crate::dec::parse_mag(s9.take(2)) == Some((0int, Some(0nat), 1nat)));
    assert(s9.take(3).drop_last() =~= s9.take(2));
    assert(s9.take(3).last() == s9[2]);
    assert(crate::dec::parse_mag(s9.take(3)) == Some((9int, Some(1nat), 2nat)));
    assert(s9.take(4).drop_last() =~= s9.take(3));
    assert(s9.take(4).last() == s9[3]);
    assert(crate::dec::parse_mag(s9.take(4)) == Some((99int, Some(2nat), 3nat)));
    assert(s9.take(5).drop_last() =~= s9.take(4));
    assert(s9.take(5).last() == s9[4]);
    assert(crate::dec::parse_mag(s9.take(5)) == Some((990int, Some(3nat), 4nat)));
    assert(s9.take(6).drop_last() =~= s9.take(5));
    assert(s9.take(6).last() == s9[5]);
    assert(crate::dec::parse_mag(s9.take(6)) == Some((9907int, Some(4nat), 5nat)));
    assert(s9.take(7).drop_last() =~= s9.take(6));
    assert(s9.take(7).last() == s9[6]);
    assert(crate::dec::parse_mag(s9.take(7)) == Some((99076int, Some(5nat), 6nat)));
    assert(s9.take(8).drop_last() =~= s9.take(7));
    assert(s9.take(8).last() == s9[7]);
    assert(crate::dec::parse_mag(s9.take(8)) == Some((990765int, Some(6nat), 7nat)));
    assert(s9.take(9).drop_last() =~= s9.take(8));
    assert(s9.take(9).last() == s9[8]);
    assert(crate::dec::parse_mag(s9.take(9)) == Some((9907652int, Some(7nat), 8nat)));
    assert(s9.take(10).drop_last() =~= s9.take(9));
    assert(s9.take(10).last() == s9[9]);
    assert(crate::dec::parse_mag(s9.take(10)) == Some((99076521int, Some(8nat), 9nat)));
    assert(s9.take(11).drop_last() =~= s9.take(10));
    assert(s9.take(11).last() == s9[10]);
    assert(crate::dec::parse_mag(s9.take(11)) == Some((990765219int, Some(9nat), 10nat)));
    assert(s9.take(12).drop_last() =~= s9.take(11));
    assert(s9.take(12).last() == s9[11]);
    assert(crate::dec::parse_mag(s9.take(12)) == Some((9907652193int, Some(10nat), 11nat)));
    assert(s9.take(12) =~= s9);
    let s10 = "5.0427577751"@;
    assert(s10.take(0) =~= Seq::<char>::empty());
    assert(crate::dec::parse_mag(s10.take(0)) == Some((0int, None::<nat>, 0nat)));
    assert(s10.take(1).drop_last() =~= s10.take(0));
    assert(s10.take(1).last() == s10[0]);
    assert(crate::dec::parse_mag(s10.take(1)) == Some((5int, None::<nat>, 1nat)));
    assert(s10.take(2).drop_last() =~= s10.take(1));
    assert(s10.take(2).last() == s10[1]);
    assert(crate::dec::parse_mag(s10.take(2)) == Some((5int, Some(0nat), 1nat)));
    assert(s10.take(3).drop_last() =~= s10.take(2));
    assert(s10.take(3).last() == s10[2]);
    assert(crate::dec::parse_mag(s10.take(3)) == Some((50int, Some(1nat), 2nat)));
    assert(s10.take(4).drop_last() =~= s10.take(3));
    assert(s10.take(4).last() == s10[3]);
    assert(crate::dec::parse_mag(s10.take(4)) == Some((504int, Some(2nat), 3nat)));
    assert(s10.take(5).drop_last() =~= s10.take(4));
    assert(s10.take(5).last() == s10[4]);
    assert(crate::dec::parse_mag(s10.take(5)) == Some((5042int, Some(3nat), 4nat)));
    assert(s10.take(6).drop_last() =~= s10.take(5));
    assert(s10.take(6).last() == s10[5]);
    assert(crate::dec::parse_mag(s10.take(6)) == Some((50427int, Some(4nat), 5nat)));
    assert(s10.take(7).drop_last() =~= s10.take(6));
    assert(s10.take(7).last() == s10[6]);
    assert(crate::dec::parse_mag(s10.take(7)) == Some((504275int, Some(5nat), 6nat)));
    assert(s10.take(8).drop_last() =~= s10.take(7));
    assert(s10.take(8).last() == s10[7]);
    assert(crate::dec::parse_mag(s10.take(8)) == Some((5042757int, Some(6nat), 7nat)));
    assert(s10.take(9).drop_last() =~= s10.take(8));
    assert(s10.take(9).last() == s10[8]);
    assert(crate::dec::parse_mag(s10.take(9)) == Some((50427577int, Some(7nat), 8nat)));
    assert(s10.take(10).drop_last() =~= s10.take(9));
    assert(s10.take(10).last() == s10[9]);
    assert(crate::dec::parse_mag(s10.take(10)) == Some((504275777int, Some(8nat), 9nat)));
    assert(s10.take(11).drop_last() =~= s10.take(10));
    assert(s10.take(11).last() == s10[10]);
    assert(crate::dec::parse_mag(s10.take(11)) == Some((5042757775int, Some(9nat), 10nat)));
    assert(s10.take(12).drop_last() =~= s10.take(11));
    assert(s10.take(12).last() == s10[11]);
    assert(crate::dec::parse_mag(s10.take(12)) == Some((50427577751int, Some(10nat), 11nat)));
    assert(s10.take(12) =~= s10);
    let s11 = "0.0000435564"@;
    assert(s11.take(0) =~= Seq::<char>::empty());
    assert(crate::dec::parse_mag(s11.take(0)) == Some((0int, None::<nat>, 0nat)));
    assert(s11.take(1).drop_last() =~= s11.take(0));
    assert(s11.take(1).last() == s11[0]);
    assert(crate::dec::parse_mag(s11.take(1)) == Some((0int, None::<nat>, 1nat)));
    assert(s11.take(2).drop_last() =~= s11.take(1));
    assert(s11.take(2).last() == s11[1]);
    assert(crate::dec::parse_mag(s11.take(2)) == Some((0int, Some(0nat), 1nat)));
    assert(s11.take(3).drop_last() =~= s11.take(2));
    assert(s11.take(3).last() == s11[2]);
    assert(crate::dec::parse_mag(s11.take(3)) == Some((0int, Some(1nat), 2nat)));
    assert(s11.take(4).drop_last() =~= s11.take(3));
    assert(s11.take(4).last() == s11[3]);
    assert(crate::dec::parse_mag(s11.take(4)) == Some((0int, Some(2nat), 3nat)));
    assert(s11.take(5).drop_last() =~= s11.take(4));
    assert(s11.take(5).last() == s11[4]);
    assert(crate::dec::parse_mag(s11.take(5)) == Some((0int, Some(3nat), 4nat)));
    assert(s11.take(6).drop_last() =~= s11.take(5));
    assert(s11.take(6).last() == s11[5]);
    assert(crate::dec::parse_mag(s11.take(6)) == Some((0int, Some(4nat), 5nat)));
    assert(s11.take(7).drop_last() =~= s11.take(6));
    assert(s11.take(7).last() == s11[6]);
    assert(crate::dec::parse_mag(s11.take(7)) == Some((4int, Some(5nat), 6nat)));
    assert(s11.take(8).drop_last() =~= s11.take(7));
    assert(s11.take(8).last() == s11[7]);
    assert(crate::dec::parse_mag(s11.take(8)) == Some((43int, Some(6nat), 7nat)));
    assert(s11.take(9).drop_last() =~= s11.take(8));
    assert(s11.take(9).last() == s11[8]);
    assert(crate::dec::parse_mag(s11.take(9)) == Some((435int, Some(7nat), 8nat)));
    assert(s11.take(10).drop_last() =~= s11.take(9));
    assert(s11.take(10).last() == s11[9]);
    assert(crate::dec::parse_mag(s11.take(10)) == Some((4355int, Some(8nat), 9nat)));
    assert(s11.take(11).drop_last() =~= s11.take(10));
    assert(s11.take(11).last() == s11[10]);
    assert(crate::dec::parse_mag(s11.take(11)) == Some((43556int, Some(9nat), 10nat)));
    assert(s11.take(12).drop_last() =~= s11.take(11));
    assert(s11.take(12).last() == s11[11]);
    assert(crate::dec::parse_mag(s11.take(12)) == Some((435564int, Some(10nat), 11nat)));
    assert(s11.take(12) =~= s11);
    let s12 = "1.0211378960"@;
    assert(s12.take(0) =~= Seq::<char>::empty());
    assert(crate::dec::parse_mag(s12.take(0)) == Some((0int, None::<nat>, 0nat)));
    assert(s12.take(1).drop_last() =~= s12.take(0));
    assert(s12.take(1).last() == s12[0]);
    assert(crate::dec::parse_mag(s12.take(1)) == Some((1int, None::<nat>, 1nat)));
    assert(s12.take(2).drop_last() =~= s12.take(1));
    assert(s12.take(2).last() == s12[1]);
    assert(crate::dec::parse_mag(s12.take(2)) == Some((1int, Some(0nat), 1nat)));
    assert(s12.take(3).drop_last() =~= s12.take(2));
    assert(s12.take(3).last() == s12[2]);
    assert(crate::dec::parse_mag(s12.take(3)) == Some((10int, Some(1nat), 2nat)));
    assert(s12.take(4).drop_last() =~= s12.take(3));
    assert(s12.take(4).last() == s12[3]);
    assert(crate::dec::parse_mag(s12.take(4)) == Some((102int, Some(2nat), 3nat)));
    assert(s12.take(5).drop_last() =~= s12.take(4));
    assert(s12.take(5).last() == s12[4]);
    assert(crate::dec::parse_mag(s12.take(5)) == Some((1021int, Some(3nat), 4nat)));
    assert(s12.take(6).drop_last() =~= s12.take(5));
    assert(s12.take(6).last() == s12[5]);
    assert(crate::dec::parse_mag(s12.take(6)) == Some((10211int, Some(4nat), 5nat)));
    assert(s12.take(7).drop_last() =~= s12.take(6));
    assert(s12.take(7).last() == s12[6]);
    assert(crate::dec::parse_mag(s12.take(7)) == Some((102113int, Some(5nat), 6nat)));
    assert(s12.take(8).drop_last() =~= s12.take(7));
    assert(s12.take(8).last() == s12[7]);
    assert(crate::dec::parse_mag(s12.take(8)) == Some((1021137int, Some(6nat), 7nat)));
    assert(s12.take(9).drop_last() =~= s12.take(8));
    assert(s12.take(9).last() == s12[8]);
    assert(crate::dec::parse_mag(s12.take(9)) == Some((10211378int, Some(7nat), 8nat)));
    assert(s12.take(10).drop_last() =~= s12.take(9));
    assert(s12.take(10).last() == s12[9]);
    assert(crate::dec::parse_mag(s12.take(10)) == Some((102113789int, Some(8nat), 9nat)));
    assert(s12.take(11).drop_last() =~= s12.take(10));
    assert(s12.take(11).last() == s12[10]);
    assert(crate::dec::parse_mag(s12.take(11)) == Some((1021137896int, Some(9nat), 10nat)));
    assert(s12.take(12).drop_last() =~= s12.take(11));
    assert(s12.take(12).last() == s12[11]);
    assert(crate::dec::parse_mag(s12.take(12)) == Some((10211378960int, Some(10nat), 11nat)));
    assert(s12.take(12) =~= s12);
}

/// The sixteen pair keys of the bundled sample set are pairwise
/// distinct.
#[verifier::rlimit(60)]
proof fn lemma_default_keys_distinct()
    ensures
        "BORG-BORG"@ != "BORG-BTC"@,
        "BORG-BORG"@ != "BORG-DAI"@,
        "BORG-BORG"@ != "BORG-EUR"@,
        "BORG-BORG"@ != "BTC-BORG"@,
        "BORG-BORG"@ != "BTC-BTC"@,
        "BORG-BORG"@ != "BTC-DAI"@,
        "BORG-BORG"@ != "BTC-EUR"@,
        "BORG-BORG"@ != "DAI-BORG"@,
        "BORG-BORG"@ != "DAI-BTC"@,
        "BORG-BORG"@ != "DAI-DAI"@,
        "BORG-BORG"@ != "DAI-EUR"@,
        "BORG-BORG"@ != "EUR-BORG"@,
        "BORG-BORG"@ != "EUR-BTC"@,
        "BORG-BORG"@ != "EUR-DAI"@,
        "BORG-BORG"@ != "EUR-EUR"@,
        "BORG-BTC"@ != "BORG-DAI"@,
        "BORG-BTC"@ != "BORG-EUR"@,
        "BORG-BTC"@ != "BTC-BORG"@,
        "BORG-BTC"@ != "BTC-BTC"@,
        "BORG-BTC"@ != "BTC-DAI"@,
        "BORG-BTC"@ != "BTC-EUR"@,
        "BORG-BTC"@ != "DAI-BORG"@,
        "BORG-BTC"@ != "DAI-BTC"@,
        "BORG-BTC"@ != "DAI-DAI"@,
        "BORG-BTC"@ != "DAI-EUR"@,
        "BORG-BTC"@ != "EUR-BORG"@,
        "BORG-BTC"@ != "EUR-BTC"@,
        "BORG-BTC"@ != "EUR-DAI"@,
        "BORG-BTC"@ != "EUR-EUR"@,
        "BORG-DAI"@ != "BORG-EUR"@,
        "BORG-DAI"@ != "BTC-BORG"@,
        "BORG-DAI"@ != "BTC-BTC"@,
        "BORG-DAI"@ != "BTC-DAI"@,
        "BORG-DAI"@ != "BTC-EUR"@,
        "BORG-DAI"@ != "DAI-BORG"@,
        "BORG-DAI"@ != "DAI-BTC"@,
        "BORG-DAI"@ != "DAI-DAI"@,
        "BORG-DAI"@ != "DAI-EUR"@,
        "BORG-DAI"@ != "EUR-BORG"@,
        "BORG-DAI"@ != "EUR-BTC"@,
        "BORG-DAI"@ != "EUR-DAI"@,
        "BORG-DAI"@ != "EUR-EUR"@,
        "BORG-EUR"@ != "BTC-BORG"@,
        "BORG-EUR"@ != "BTC-BTC"@,
        "BORG-EUR"@ != "BTC-DAI"@,
        "BORG-EUR"@ != "BTC-EUR"@,
        "BORG-EUR"@ != "DAI-BORG"@,
        "BORG-EUR"@ != "DAI-BTC"@,
        "BORG-EUR"@ != "DAI-DAI"@,
        "BORG-EUR"@ != "DAI-EUR"@,
        "BORG-EUR"@ != "EUR-BORG"@,
        "BORG-EUR"@ != "EUR-BTC"@,
        "BORG-EUR"@ != "EUR-DAI"@,
        "BORG-EUR"@ != "EUR-EUR"@,
        "BTC-BORG"@ != "BTC-BTC"@,
        "BTC-BORG"@ != "BTC-DAI"@,
        "BTC-BORG"@ != "BTC-EUR"@,
        "BTC-BORG"@ != "DAI-BORG"@,
        "BTC-BORG"@ != "DAI-BTC"@,
        "BTC-BORG"@ != "DAI-DAI"@,
        "BTC-BORG"@ != "DAI-EUR"@,
        "BTC-BORG"@ != "EUR-BORG"@,
        "BTC-BORG"@ != "EUR-BTC"@,
        "BTC-BORG"@ != "EUR-DAI"@,
        "BTC-BORG"@ != "EUR-EUR"@,
        "BTC-BTC"@ != "BTC-DAI"@,
        "BTC-BTC"@ != "BTC-EUR"@,
        "BTC-BTC"@ != "DAI-BORG"@,
        "BTC-BTC"@ != "DAI-BTC"@,
        "BTC-BTC"@ != "DAI-DAI"@,
        "BTC-BTC"@ != "DAI-EUR"@,
        "BTC-BTC"@ != "EUR-BORG"@,
        "BTC-BTC"@ != "EUR-BTC"@,
        "BTC-BTC"@ != "EUR-DAI"@,
        "BTC-BTC"@ != "EUR-EUR"@,
        "BTC-DAI"@ != "BTC-EUR"@,
        "BTC-DAI"@ != "DAI-BORG"@,
        "BTC-DAI"@ != "DAI-BTC"@,
        "BTC-DAI"@ != "DAI-DAI"@,
        "BTC-DAI"@ != "DAI-EUR"@,
        "BTC-DAI"@ != "EUR-BORG"@,
        "BTC-DAI"@ != "EUR-BTC"@,
        "BTC-DAI"@ != "EUR-DAI"@,
        "BTC-DAI"@ != "EUR-EUR"@,
        "BTC-EUR"@ != "DAI-BORG"@,
        "BTC-EUR"@ != "DAI-BTC"@,
        "BTC-EUR"@ != "DAI-DAI"@,
        "BTC-EUR"@ != "DAI-EUR"@,
        "BTC-EUR"@ != "EUR-BORG"@,
        "BTC-EUR"@ != "EUR-BTC"@,
        "BTC-EUR"@ != "EUR-DAI"@,
        "BTC-EUR"@ != "EUR-EUR"@,
        "DAI-BORG"@ != "DAI-BTC"@,
        "DAI-BORG"@ != "DAI-DAI"@,
        "DAI-BORG"@ != "DAI-EUR"@,
        "DAI-BORG"@ != "EUR-BORG"@,
        "DAI-BORG"@ != "EUR-BTC"@,
        "DAI-BORG"@ != "EUR-DAI"@,
        "DAI-BORG"@ != "EUR-EUR"@,
        "DAI-BTC"@ != "DAI-DAI"@,
        "DAI-BTC"@ != "DAI-EUR"@,
        "DAI-BTC"@ != "EUR-BORG"@,
        "DAI-BTC"@ != "EUR-BTC"@,
        "DAI-BTC"@ != "EUR-DAI"@,
        "DAI-BTC"@ != "EUR-EUR"@,
        "DAI-DAI"@ != "DAI-EUR"@,
        "DAI-DAI"@ != "EUR-BORG"@,
        "DAI-DAI"@ != "EUR-BTC"@,
        "DAI-DAI"@ != "EUR-DAI"@,
        "DAI-DAI"@ != "EUR-EUR"@,
        "DAI-EUR"@ != "EUR-BORG"@,
        "DAI-EUR"@ != "EUR-BTC"@,
        "DAI-EUR"@ != "EUR-DAI"@,
        "DAI-EUR"@ != "EUR-EUR"@,
        "EUR-BORG"@ != "EUR-BTC"@,
        "EUR-BORG"@ != "EUR-DAI"@,
        "EUR-BORG"@ != "EUR-EUR"@,
        "EUR-BTC"@ != "EUR-DAI"@,
        "EUR-BTC"@ != "EUR-EUR"@,
        "EUR-DAI"@ != "EUR-EUR"@,
{
    reveal_strlit("BORG-BORG");
    reveal_strlit("BORG-BTC");
    reveal_strlit("BORG-DAI");
    reveal_strlit("BORG-EUR");
    reveal_strlit("BTC-BORG");
    reveal_strlit("BTC-BTC");
    reveal_strlit("BTC-DAI");
    reveal_strlit("BTC-EUR");
    reveal_strlit("DAI-BORG");
    reveal_strlit("DAI-BTC");
    reveal_strlit("DAI-DAI");
    reveal_strlit("DAI-EUR");
    reveal_strlit("EUR-BORG");
    reveal_strlit("EUR-BTC");
    reveal_strlit("EUR-DAI");
    reveal_strlit("EUR-EUR");
    assert("BORG-BORG"@.len() != "BORG-BTC"@.len());
    assert("BORG-BORG"@ != "BORG-BTC"@);
    assert("BORG-BORG"@.len() != "BORG-DAI"@.len());
    assert("BORG-BORG"@ != "BORG-DAI"@);
    assert("BORG-BORG"@.len() != "BORG-EUR"@.len());
    assert("BORG-BORG"@ != "BORG-EUR"@);
    assert("BORG-BORG"@.len() != "BTC-BORG"@.len());
    assert("BORG-BORG"@ != "BTC-BORG"@);
    assert("BORG-BORG"@.len() != "BTC-BTC"@.len());
    assert("BORG-BORG"@ != "BTC-BTC"@);
    assert("BORG-BORG"@.len() != "BTC-DAI"@.len());
    assert("BORG-BORG"@ != "BTC-DAI"@);
    assert("BORG-BORG"@.len() != "BTC-EUR"@.len());
    assert("BORG-BORG"@ != "BTC-EUR"@);
    assert("BORG-BORG"@.len() != "DAI-BORG"@.len());
    assert("BORG-BORG"@ != "DAI-BORG"@);
    assert("BORG-BORG"@.len() != "DAI-BTC"@.len());
    assert("BORG-BORG"@ != "DAI-BTC"@);
    assert("BORG-BORG"@.len() != "DAI-DAI"@.len());
    assert("BORG-BORG"@ != "DAI-DAI"@);
    assert("BORG-BORG"@.len() != "DAI-EUR"@.len());
    assert("BORG-BORG"@ != "DAI-EUR"@);
    assert("BORG-BORG"@.len() != "EUR-BORG"@.len());
    assert("BORG-BORG"@ != "EUR-BORG"@);
    assert("BORG-BORG"@.len() != "EUR-BTC"@.len());
    assert("BORG-BORG"@ != "EUR-BTC"@);
    assert("BORG-BORG"@.len() != "EUR-DAI"@.len());
    assert("BORG-BORG"@ != "EUR-DAI"@);
    assert("BORG-BORG"@.len() != "EUR-EUR"@.len());
    assert("BORG-BORG"@ != "EUR-EUR"@);
    assert("BORG-BTC"@[5] != "BORG-DAI"@[5]);
    assert("BORG-BTC"@ != "BORG-DAI"@);
    assert("BORG-BTC"@[5] != "BORG-EUR"@[5]);
    assert("BORG-BTC"@ != "BORG-EUR"@);
    assert("BORG-BTC"@[1] != "BTC-BORG"@[1]);
    assert("BORG-BTC"@ != "BTC-BORG"@);
    assert("BORG-BTC"@.len() != "BTC-BTC"@.len());
    assert("BORG-BTC"@ != "BTC-BTC"@);
    assert("BORG-BTC"@.len() != "BTC-DAI"@.len());
    assert("BORG-BTC"@ != "BTC-DAI"@);
    assert("BORG-BTC"@.len() != "BTC-EUR"@.len());
    assert("BORG-BTC"@ != "BTC-EUR"@);
    assert("BORG-BTC"@[0] != "DAI-BORG"@[0]);
    assert("BORG-BTC"@ != "DAI-BORG"@);
    assert("BORG-BTC"@.len() != "DAI-BTC"@.len());
    assert("BORG-BTC"@ != "DAI-BTC"@);
    assert("BORG-BTC"@.len() != "DAI-DAI"@.len());
    assert("BORG-BTC"@ != "DAI-DAI"@);
    assert("BORG-BTC"@.len() != "DAI-EUR"@.len());
    assert("BORG-BTC"@ != "DAI-EUR"@);
    assert("BORG-BTC"@[0] != "EUR-BORG"@[0]);
    assert("BORG-BTC"@ != "EUR-BORG"@);
    assert("BORG-BTC"@.len() != "EUR-BTC"@.len());
    assert("BORG-BTC"@ != "EUR-BTC"@);
    assert("BORG-BTC"@.len() != "EUR-DAI"@.len());
    assert("BORG-BTC"@ != "EUR-DAI"@);
    assert("BORG-BTC"@.len() != "EUR-EUR"@.len());
    assert("BORG-BTC"@ != "EUR-EUR"@);
    assert("BORG-DAI"@[5] != "BORG-EUR"@[5]);
    assert("BORG-DAI"@ != "BORG-EUR"@);
    assert("BORG-DAI"@[1] != "BTC-BORG"@[1]);
    assert("BORG-DAI"@ != "BTC-BORG"@);
    assert("BORG-DAI"@.len() != "BTC-BTC"@.len());
    assert("BORG-DAI"@ != "BTC-BTC"@);
    assert("BORG-DAI"@.len() != "BTC-DAI"@.len());
    assert("BORG-DAI"@ != "BTC-DAI"@);
    assert("BORG-DAI"@.len() != "BTC-EUR"@.len());
    assert("BORG-DAI"@ != "BTC-EUR"@);
    assert("BORG-DAI"@[0] != "DAI-BORG"@[0]);
    assert("BORG-DAI"@ != "DAI-BORG"@);
    assert("BORG-DAI"@.len() != "DAI-BTC"@.len());
    assert("BORG-DAI"@ != "DAI-BTC"@);
    assert("BORG-DAI"@.len() != "DAI-DAI"@.len());
    assert("BORG-DAI"@ != "DAI-DAI"@);
    assert("BORG-DAI"@.len() != "DAI-EUR"@.len());
    assert("BORG-DAI"@ != "DAI-EUR"@);
    assert("BORG-DAI"@[0] != "EUR-BORG"@[0]);
    assert("BORG-DAI"@ != "EUR-BORG"@);
    assert("BORG-DAI"@.len() != "EUR-BTC"@.len());
    assert("BORG-DAI"@ != "EUR-BTC"@);
    assert("BORG-DAI"@.len() != "EUR-DAI"@.len());
    assert("BORG-DAI"@ != "EUR-DAI"@);
    assert("BORG-DAI"@.len() != "EUR-EUR"@.len());
    assert("BORG-DAI"@ != "EUR-EUR"@);
    assert("BORG-EUR"@[1] != "BTC-BORG"@[1]);
    assert("BORG-EUR"@ != "BTC-BORG"@);
    assert("BORG-EUR"@.len() != "BTC-BTC"@.len());
    assert("BORG-EUR"@ != "BTC-BTC"@);
    assert("BORG-EUR"@.len() != "BTC-DAI"@.len());
    assert("BORG-EUR"@ != "BTC-DAI"@);
    assert("BORG-EUR"@.len() != "BTC-EUR"@.len());
    assert("BORG-EUR"@ != "BTC-EUR"@);
    assert("BORG-EUR"@[0] != "DAI-BORG"@[0]);
    assert("BORG-EUR"@ != "DAI-BORG"@);
    assert("BORG-EUR"@.len() != "DAI-BTC"@.len());
    assert("BORG-EUR"@ != "DAI-BTC"@);
    assert("BORG-EUR"@.len() != "DAI-DAI"@.len());
    assert("BORG-EUR"@ != "DAI-DAI"@);
    assert("BORG-EUR"@.len() != "DAI-EUR"@.len());
    assert("BORG-EUR"@ != "DAI-EUR"@);
    assert("BORG-EUR"@[0] != "EUR-BORG"@[0]);
    assert("BORG-EUR"@ != "EUR-BORG"@);
    assert("BORG-EUR"@.len() != "EUR-BTC"@.len());
    assert("BORG-EUR"@ != "EUR-BTC"@);
    assert("BORG-EUR"@.len() != "EUR-DAI"@.len());
    assert("BORG-EUR"@ != "EUR-DAI"@);
    assert("BORG-EUR"@.len() != "EUR-EUR"@.len());
    assert("BORG-EUR"@ != "EUR-EUR"@);
    assert("BTC-BORG"@.len() != "BTC-BTC"@.len());
    assert("BTC-BORG"@ != "BTC-BTC"@);
    assert("BTC-BORG"@.len() != "BTC-DAI"@.len());
    assert("BTC-BORG"@ != "BTC-DAI"@);
    assert("BTC-BORG"@.len() != "BTC-EUR"@.len());
    assert("BTC-BORG"@ != "BTC-EUR"@);
    assert("BTC-BORG"@[0] != "DAI-BORG"@[0]);
    assert("BTC-BORG"@ != "DAI-BORG"@);
    assert("BTC-BORG"@.len() != "DAI-BTC"@.len());
    assert("BTC-BORG"@ != "DAI-BTC"@);
    assert("BTC-BORG"@.len() != "DAI-DAI"@.len());
    assert("BTC-BORG"@ != "DAI-DAI"@);
    assert("BTC-BORG"@.len() != "DAI-EUR"@.len());
    assert("BTC-BORG"@ != "DAI-EUR"@);
    assert("BTC-BORG"@[0] != "EUR-BORG"@[0]);
    assert("BTC-BORG"@ != "EUR-BORG"@);
    assert("BTC-BORG"@.len() != "EUR-BTC"@.len());
    assert("BTC-BORG"@ != "EUR-BTC"@);
    assert("BTC-BORG"@.len() != "EUR-DAI"@.len());
    assert("BTC-BORG"@ != "EUR-DAI"@);
    assert("BTC-BORG"@.len() != "EUR-EUR"@.len());
    assert("BTC-BORG"@ != "EUR-EUR"@);
    assert("BTC-BTC"@[4] != "BTC-DAI"@[4]);
    assert("BTC-BTC"@ != "BTC-DAI"@);
    assert("BTC-BTC"@[4] != "BTC-EUR"@[4]);
    assert("BTC-BTC"@ != "BTC-EUR"@);
    assert("BTC-BTC"@.len() != "DAI-BORG"@.len());
    assert("BTC-BTC"@ != "DAI-BORG"@);
    assert("BTC-BTC"@[0] != "DAI-BTC"@[0]);
    assert("BTC-BTC"@ != "DAI-BTC"@);
    assert("BTC-BTC"@[0] != "DAI-DAI"@[0]);
    assert("BTC-BTC"@ != "DAI-DAI"@);
    assert("BTC-BTC"@[0] != "DAI-EUR"@[0]);
    assert("BTC-BTC"@ != "DAI-EUR"@);
    assert("BTC-BTC"@.len() != "EUR-BORG"@.len());
    assert("BTC-BTC"@ != "EUR-BORG"@);
    assert("BTC-BTC"@[0] != "EUR-BTC"@[0]);
    assert("BTC-BTC"@ != "EUR-BTC"@);
    assert("BTC-BTC"@[0] != "EUR-DAI"@[0]);
    assert("BTC-BTC"@ != "EUR-DAI"@);
    assert("BTC-BTC"@[0] != "EUR-EUR"@[0]);
    assert("BTC-BTC"@ != "EUR-EUR"@);
    assert("BTC-DAI"@[4] != "BTC-EUR"@[4]);
    assert("BTC-DAI"@ != "BTC-EUR"@);
    assert("BTC-DAI"@.len() != "DAI-BORG"@.len());
    assert("BTC-DAI"@ != "DAI-BORG"@);
    assert("BTC-DAI"@[0] != "DAI-BTC"@[0]);
    assert("BTC-DAI"@ != "DAI-BTC"@);
    assert("BTC-DAI"@[0] != "DAI-DAI"@[0]);
    assert("BTC-DAI"@ != "DAI-DAI"@);
    assert("BTC-DAI"@[0] != "DAI-EUR"@[0]);
    assert("BTC-DAI"@ != "DAI-EUR"@);
    assert("BTC-DAI"@.len() != "EUR-BORG"@.len());
    assert("BTC-DAI"@ != "EUR-BORG"@);
    assert("BTC-DAI"@[0] != "EUR-BTC"@[0]);
    assert("BTC-DAI"@ != "EUR-BTC"@);
    assert("BTC-DAI"@[0] != "EUR-DAI"@[0]);
    assert("BTC-DAI"@ != "EUR-DAI"@);
    assert("BTC-DAI"@[0] != "EUR-EUR"@[0]);
    assert("BTC-DAI"@ != "EUR-EUR"@);
    assert("BTC-EUR"@.len() != "DAI-BORG"@.len());
    assert("BTC-EUR"@ != "DAI-BORG"@);
    assert("BTC-EUR"@[0] != "DAI-BTC"@[0]);
    assert("BTC-EUR"@ != "DAI-BTC"@);
    assert("BTC-EUR"@[0] != "DAI-DAI"@[0]);
    assert("BTC-EUR"@ != "DAI-DAI"@);
    assert("BTC-EUR"@[0] != "DAI-EUR"@[0]);
    assert("BTC-EUR"@ != "DAI-EUR"@);
    assert("BTC-EUR"@.len() != "EUR-BORG"@.len());
    assert("BTC-EUR"@ != "EUR-BORG"@);
    assert("BTC-EUR"@[0] != "EUR-BTC"@[0]);
    assert("BTC-EUR"@ != "EUR-BTC"@);
    assert("BTC-EUR"@[0] != "EUR-DAI"@[0]);
    assert("BTC-EUR"@ != "EUR-DAI"@);
    assert("BTC-EUR"@[0] != "EUR-EUR"@[0]);
    assert("BTC-EUR"@ != "EUR-EUR"@);
    assert("DAI-BORG"@.len() != "DAI-BTC"@.len());
    assert("DAI-BORG"@ != "DAI-BTC"@);
    assert("DAI-BORG"@.len() != "DAI-DAI"@.len());
    assert("DAI-BORG"@ != "DAI-DAI"@);
    assert("DAI-BORG"@.len() != "DAI-EUR"@.len());
    assert("DAI-BORG"@ != "DAI-EUR"@);
    assert("DAI-BORG"@[0] != "EUR-BORG"@[0]);
    assert("DAI-BORG"@ != "EUR-BORG"@);
    assert("DAI-BORG"@.len() != "EUR-BTC"@.len());
    assert("DAI-BORG"@ != "EUR-BTC"@);
    assert("DAI-BORG"@.len() != "EUR-DAI"@.len());
    assert("DAI-BORG"@ != "EUR-DAI"@);
    assert("DAI-BORG"@.len() != "EUR-EUR"@.len());
    assert("DAI-BORG"@ != "EUR-EUR"@);
    assert("DAI-BTC"@[4] != "DAI-DAI"@[4]);
    assert("DAI-BTC"@ != "DAI-DAI"@);
    assert("DAI-BTC"@[4] != "DAI-EUR"@[4]);
    assert("DAI-BTC"@ != "DAI-EUR"@);
    assert("DAI-BTC"@.len() != "EUR-BORG"@.len());
    assert("DAI-BTC"@ != "EUR-BORG"@);
    assert("DAI-BTC"@[0] != "EUR-BTC"@[0]);
    assert("DAI-BTC"@ != "EUR-BTC"@);
    assert("DAI-BTC"@[0] != "EUR-DAI"@[0]);
    assert("DAI-BTC"@ != "EUR-DAI"@);
    assert("DAI-BTC"@[0] != "EUR-EUR"@[0]);
    assert("DAI-BTC"@ != "EUR-EUR"@);
    assert("DAI-DAI"@[4] != "DAI-EUR"@[4]);
    assert("DAI-DAI"@ != "DAI-EUR"@);
    assert("DAI-DAI"@.len() != "EUR-BORG"@.len());
    assert("DAI-DAI"@ != "EUR-BORG"@);
    assert("DAI-DAI"@[0] != "EUR-BTC"@[0]);
    assert("DAI-DAI"@ != "EUR-BTC"@);
    assert("DAI-DAI"@[0] != "EUR-DAI"@[0]);
    assert("DAI-DAI"@ != "EUR-DAI"@);
    assert("DAI-DAI"@[0] != "EUR-EUR"@[0]);
    assert("DAI-DAI"@ != "EUR-EUR"@);
    assert("DAI-EUR"@.len() != "EUR-BORG"@.len());
    assert("DAI-EUR"@ != "EUR-BORG"@);
    assert("DAI-EUR"@[0] != "EUR-BTC"@[0]);
    assert("DAI-EUR"@ != "EUR-BTC"@);
    assert("DAI-EUR"@[0] != "EUR-DAI"@[0]);
    assert("DAI-EUR"@ != "EUR-DAI"@);
    assert("DAI-EUR"@[0] != "EUR-EUR"@[0]);
    assert("DAI-EUR"@ != "EUR-EUR"@);
    assert("EUR-BORG"@.len() != "EUR-BTC"@.len());
    assert("EUR-BORG"@ != "EUR-BTC"@);
    assert("EUR-BORG"@.len() != "EUR-DAI"@.len());
    assert("EUR-BORG"@ != "EUR-DAI"@);
    assert("EUR-BORG"@.len() != "EUR-EUR"@.len());
    assert("EUR-BORG"@ != "EUR-EUR"@);
    assert("EUR-BTC"@[4] != "EUR-DAI"@[4]);
    assert("EUR-BTC"@ != "EUR-DAI"@);
    assert("EUR-BTC"@[4] != "EUR-EUR"@[4]);
    assert("EUR-BTC"@ != "EUR-EUR"@);
    assert("EUR-DAI"@[4] != "EUR-EUR"@[4]);
    assert("EUR-DAI"@ != "EUR-EUR"@);
}

/// Reads a rate literal that is known to read as a decimal.
fn parsed_rate(s: &str) -> (r: Dec)
    requires
        parse_dec_str(s@) is Some,
    ensures
        r.wf(),
        parse_dec_str(s@) == Some((r.mant(), r.scale as nat)),
{
    match dec_from_str(s) {
        Some(d) => d,
        None => {
            proof {
                assert(false);
            }
            crate::dec::dec_zero()
        },
    }
}

/// The content of the bundled sample table: sixteen entries in
/// ascending key order, each rate exact.
pub open spec fn default_table_shape(t: RateTable) -> bool {
            &&& t.wf()
            &&& t.entries@.len() == 16
            &&& t.entries@[0].0@ == "BORG-BORG"@ && t.entries@[0].1.mant() == 10000000000 && t.entries@[0].1.scale == 10
            &&& t.entries@[1].0@ == "BORG-BTC"@ && t.entries@[1].1.mant() == 86866 && t.entries@[1].1.scale == 10
            &&& t.entries@[2].0@ == "BORG-DAI"@ && t.entries@[2].1.mant() == 2053990550 && t.entries@[2].1.scale == 10
            &&& t.entries@[3].0@ == "BORG-EUR"@ && t.entries@[3].1.mant() == 2017539914 && t.entries@[3].1.scale == 10
            &&& t.entries@[4].0@ == "BTC-BORG"@ && t.entries@[4].1.mant() == 1163522654440156 && t.entries@[4].1.scale == 10
            &&& t.entries@[5].0@ == "BTC-BTC"@ && t.entries@[5].1.mant() == 10000000000 && t.entries@[5].1.scale == 10
            &&& t.entries@[6].0@ == "BTC-DAI"@ && t.entries@[6].1.mant() == 235241391553039 && t.entries@[6].1.scale == 10
            &&& t.entries@[7].0@ == "BTC-EUR"@ && t.entries@[7].1.mant() == 232588865583847 && t.entries@[7].1.scale == 10
            &&& t.entries@[8].0@ == "DAI-BORG"@ && t.entries@[8].1.mant() == 49320433378 && t.entries@[8].1.scale == 10
            &&& t.entries@[9].0@ == "DAI-BTC"@ && t.entries@[9].1.mant() == 429088 && t.entries@[9].1.scale == 10
            &&& t.entries@[10].0@ == "DAI-DAI"@ && t.entries@[10].1.mant() == 10000000000 && t.entries@[10].1.scale == 10
            &&& t.entries@[11].0@ == "DAI-EUR"@ && t.entries@[11].1.mant() == 9907652193 && t.entries@[11].1.scale == 10
            &&& t.entries@[12].0@ == "EUR-BORG"@ && t.entries@[12].1.mant() == 50427577751 && t.entries@[12].1.scale == 10
            &&& t.entries@[13].0@ == "EUR-BTC"@ && t.entries@[13].1.mant() == 435564 && t.entries@[13].1.scale == 10
            &&& t.entries@[14].0@ == "EUR-DAI"@ && t.entries@[14].1.mant() == 10211378960 && t.entries@[14].1.scale == 10
            &&& t.entries@[15].0@ == "EUR-EUR"@ && t.entries@[15].1.mant() == 10000000000 && t.entries@[15].1.scale == 10
    }

/// The bundled sample rate set, as an explicit value a caller may
/// substitute: sixteen pairs over BORG, BTC, DAI and EUR, listed in
/// ascending key order so downstream iteration order is fixed.  The
/// table always builds, and each entry's key and exact rate are pinned
/// below.
#[verifier::rlimit(60)]
pub fn default_rates_bigdecimal() -> (r: Result<RateTable, ArbiError>)
    ensures
        r is Ok,
        r matches Ok(t) ==> default_table_shape(t),

{
    proof {
        lemma_default_rate_strings_parse();
        lemma_default_keys_distinct();
    }
    let mut entries: Vec<(String, Dec)> = Vec::new();
    entries.push(("BORG-BORG".to_owned(), parsed_rate("1.0000000000")));
    entries.push(("BORG-BTC".to_owned(), parsed_rate("0.0000086866")));
    entries.push(("BORG-DAI".to_owned(), parsed_rate("0.2053990550")));
    entries.push(("BORG-EUR".to_owned(), parsed_rate("0.2017539914")));
    entries.push(("BTC-BORG".to_owned(), parsed_rate("116352.2654440156")));
    entries.push(("BTC-BTC".to_owned(), parsed_rate("1.0000000000")));
    entries.push(("BTC-DAI".to_owned(), parsed_rate("23524.1391553039")));
    entries.push(("BTC-EUR".to_owned(), parsed_rate("23258.8865583847")));
    entries.push(("DAI-BORG".to_owned(), parsed_rate("4.9320433378")));
    entries.push(("DAI-BTC".to_owned(), parsed_rate("0.0000429088")));
    entries.push(("DAI-DAI".to_owned(), parsed_rate("1.0000000000")));
    entries.push(("DAI-EUR".to_owned(), parsed_rate("0.9907652193")));
    entries.push(("EUR-BORG".to_owned(), parsed_rate("5.0427577751")));
    entries.push(("EUR-BTC".to_owned(), parsed_rate("0.0000435564")));
    entries.push(("EUR-DAI".to_owned(), parsed_rate("1.0211378960")));
    entries.push(("EUR-EUR".to_owned(), parsed_rate("1.0000000000")));
    proof {
        assert forall|i: int, j: int| 0 <= i < j < entries@.len() implies (
        #[trigger] entries@[i]).0@ != (#[trigger] entries@[j]).0@ by {
        }
    }
    Ok(RateTable { entries })
}

} // verus!
