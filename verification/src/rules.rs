use vstd::prelude::*;
use vstd::string::StringSliceAdditionalSpecFns;

verus! {

/// Which offset set counts as "adjacent": the 26-cell Moore box or the
/// 6-cell Von Neumann cross.
#[derive(Debug, Clone, Copy, PartialEq, Eq, Structural)]
pub enum Neighbourhood {
    Moore,
    VonNeumann,
}

impl Neighbourhood {
    /// "VN" and "vn" select Von Neumann; every other string means Moore.
    pub open spec fn spec_parse(s: Seq<u8>) -> Neighbourhood {
        if s.len() == 2 && (s[0] == 86 && s[1] == 78 || s[0] == 118 && s[1] == 110) {
            Neighbourhood::VonNeumann
        } else {
            Neighbourhood::Moore
        }
    }

    pub fn parse_from_str(input: &str) -> (r: Self)
        ensures
            r == Neighbourhood::spec_parse(input.spec_bytes()),
    {
        let b = input.as_bytes();
        if b.len() == 2 && (b[0] == 86 && b[1] == 78 || b[0] == 118 && b[1] == 110) {
            Self::VonNeumann
        } else {
            Self::Moore
        }
    }
}

/// Whether `n` lies inside at least one of the inclusive ranges.
pub open spec fn in_ranges(n: usize, rs: Seq<(usize, usize)>) -> bool {
    exists|i: int| 0 <= i < rs.len() && (#[trigger] rs[i]).0 <= n <= rs[i].1
}

/// True iff `n` falls outside every given range.
fn check_exclusive(n: usize, condis: &Vec<(usize, usize)>) -> (r: bool)
    ensures
        r == !in_ranges(n, condis@),
{
    let mut b = true;
    let mut t: usize = 0;
    while t < condis.len()
        invariant
            t <= condis@.len(),
            b == !in_ranges(n, condis@.take(t as int)),
        decreases condis@.len() - t,
    {
        let c = condis[t];
        b = b && ((n < c.0) || (n > c.1));
        proof {
            assert(in_ranges(n, condis@.take(t + 1)) <==> (in_ranges(n, condis@.take(t as int))
                || (c.0 <= n <= c.1))) by {
                assert(forall|i: int|
                    0 <= i < t + 1 ==> #[trigger] condis@.take(t + 1)[i] == condis@[i]);
                assert(forall|i: int|
                    0 <= i < t ==> #[trigger] condis@.take(t as int)[i] == condis@[i]);
                if c.0 <= n <= c.1 {
                    assert(condis@.take(t + 1)[t as int] == c);
                }
            }
        }
        t = t + 1;
    }
    proof {
        assert(condis@.take(condis@.len() as int) =~= condis@);
    }
    b
}

/// True iff `n` falls inside at least one of the given ranges.
fn check_inclusive(n: usize, condis: &Vec<(usize, usize)>) -> (r: bool)
    ensures
        r == in_ranges(n, condis@),
{
    let mut b = false;
    let mut t: usize = 0;
    while t < condis.len()
        invariant
            t <= condis@.len(),
            b == in_ranges(n, condis@.take(t as int)),
        decreases condis@.len() - t,
    {
        let c = condis[t];
        b = b || ((n >= c.0) && (n <= c.1));
        proof {
            assert(in_ranges(n, condis@.take(t + 1)) <==> (in_ranges(n, condis@.take(t as int))
                || (c.0 <= n <= c.1))) by {
                assert(forall|i: int|
                    0 <= i < t + 1 ==> #[trigger] condis@.take(t + 1)[i] == condis@[i]);
                assert(forall|i: int|
                    0 <= i < t ==> #[trigger] condis@.take(t as int)[i] == condis@[i]);
                if c.0 <= n <= c.1 {
                    assert(condis@.take(t + 1)[t as int] == c);
                }
            }
        }
        t = t + 1;
    }
    proof {
        assert(condis@.take(condis@.len() as int) =~= condis@);
    }
    b
}

/// ASCII decimal digit.
pub open spec fn is_digit(b: u8) -> bool {
    48 <= b <= 57
}

pub open spec fn all_digits(s: Seq<u8>) -> bool {
    forall|i: int| 0 <= i < s.len() ==> is_digit(#[trigger] s[i])
}

/// Value of a digit string, most significant first.
pub open spec fn digits_val(s: Seq<u8>) -> nat
    decreases s.len(),
{
    if s.len() == 0 {
        0
    } else {
        (digits_val(s.drop_last()) * 10 + (s.last() - 48)) as nat
    }
}

/// A longer digit string never has a smaller value.
proof fn lemma_digits_val_prefix_le(s: Seq<u8>, i: int)
    requires
        0 <= i <= s.len(),
        all_digits(s),
    ensures
        digits_val(s.take(i)) <= digits_val(s),
    decreases s.len() - i,
{
    if i < s.len() {
        assert(s.take(i + 1).drop_last() =~= s.take(i));
        assert(s.take(i + 1).last() == s[i]);
        assert(digits_val(s.take(i)) <= digits_val(s.take(i + 1)));
        lemma_digits_val_prefix_le(s, i + 1);
        assert(s.take(s.len() as int) =~= s);
    } else {
        assert(s.take(i) =~= s);
    }
}

/// What Rust's decimal parse accepts after the sign: one or more digits whose
/// value fits below the given bound.
pub open spec fn spec_digits_limited(body: Seq<u8>, limit: usize) -> Option<usize> {
    if body.len() >= 1 && all_digits(body) && digits_val(body) <= limit {
        Some(digits_val(body) as usize)
    } else {
        None
    }
}

/// Parses the digits of `s` from `start` on, failing on a non-digit, an empty
/// tail, or a value above `limit`.
fn parse_digits_limited(s: &Vec<u8>, start: usize, limit: usize) -> (r: Option<usize>)
    requires
        start <= s@.len(),
    ensures
        r == spec_digits_limited(s@.skip(start as int), limit),
{
    let ghost body = s@.skip(start as int);
    let n = s.len();
    if start == n {
        return None;
    }
    let mut val: usize = 0;
    let mut i: usize = start;
    while i < n
        invariant
            start <= i <= n,
            n == s@.len(),
            body == s@.skip(start as int),
            all_digits(body.take(i - start)),
            val == digits_val(body.take(i - start)),
            val <= limit,
        decreases n - i,
    {
        let b = s[i];
        proof {
            assert(body[i - start] == s@[i as int]);
        }
        if b < 48 || b > 57 {
            assert(!all_digits(body));
            return None;
        }
        let d = (b - 48) as usize;
        proof {
            assert(body.take(i - start + 1).drop_last() =~= body.take(i - start));
            assert(body.take(i - start + 1).last() == body[i - start]);
        }
        if d > limit || val > (limit - d) / 10 {
            // the accumulated value can only grow: the whole token overflows
            proof {
                if d <= limit {
                    assert(val * 10 + d > limit) by (nonlinear_arith)
                        requires
                            val > (limit - d) / 10,
                            d <= limit,
                            0 <= d < 10,
                            val >= 0,
                    ;
                }
                if all_digits(body) {
                    lemma_digits_val_prefix_le(body, i - start + 1);
                    assert(digits_val(body) > limit);
                }
            }
            return None;
        }
        proof {
            assert(val * 10 + d <= limit) by (nonlinear_arith)
                requires
                    val <= (limit - d) / 10,
                    d <= limit,
                    0 <= d < 10,
                    val >= 0,
            ;
        }
        val = val * 10 + d;
        i = i + 1;
    }
    proof {
        assert(body.take(n - start) =~= body);
    }
    Some(val)
}

/// How Rust's `split` cuts a byte string at a delimiter: one piece per gap,
/// so an empty input or a trailing delimiter still yields an empty piece.
pub open spec fn split_spec(s: Seq<u8>, d: u8) -> Seq<Seq<u8>>
    decreases s.len(),
{
    if s.len() == 0 {
        seq![Seq::<u8>::empty()]
    } else if s[0] == d {
        seq![Seq::<u8>::empty()] + split_spec(s.skip(1), d)
    } else {
        let rest = split_spec(s.skip(1), d);
        seq![seq![s[0]] + rest[0]] + rest.skip(1)
    }
}

proof fn lemma_split_spec_len(s: Seq<u8>, d: u8)
    ensures
        split_spec(s, d).len() >= 1,
    decreases s.len(),
{
    if s.len() > 0 {
        lemma_split_spec_len(s.skip(1), d);
    }
}

/// Splits on the delimiter, piece by piece, as `split_spec` describes.
fn split_bytes(s: &Vec<u8>, d: u8) -> (r: Vec<Vec<u8>>)
    ensures
        r@.map_values(|v: Vec<u8>| v@) == split_spec(s@, d),
{
    let mut emitted: Vec<Vec<u8>> = Vec::new();
    let mut cur: Vec<u8> = Vec::new();
    let n = s.len();
    let mut i: usize = 0;
    proof {
        assert(s@.skip(0) =~= s@);
        lemma_split_spec_len(s@, d);
        assert(split_spec(s@, d) =~= Seq::<Seq<u8>>::empty() + seq![
            Seq::<u8>::empty() + split_spec(s@, d)[0],
        ] + split_spec(s@, d).skip(1));
        assert(emitted@.map_values(|v: Vec<u8>| v@) =~= Seq::<Seq<u8>>::empty());
    }
    while i < n
        invariant
            i <= n,
            n == s@.len(),
            split_spec(s@, d) == emitted@.map_values(|v: Vec<u8>| v@) + seq![
                cur@ + split_spec(s@.skip(i as int), d)[0],
            ] + split_spec(s@.skip(i as int), d).skip(1),
        decreases n - i,
    {
        let ghost rem = s@.skip(i as int);
        let ghost rest = split_spec(s@.skip(i + 1), d);
        proof {
            assert(rem.len() > 0);
            assert(rem[0] == s@[i as int]);
            assert(rem.skip(1) =~= s@.skip(i + 1));
            lemma_split_spec_len(s@.skip(i + 1), d);
        }
        let b = s[i];
        if b == d {
            proof {
                assert(split_spec(rem, d) == seq![Seq::<u8>::empty()] + rest);
                assert(split_spec(rem, d)[0] =~= Seq::<u8>::empty());
                assert(split_spec(rem, d).skip(1) =~= rest);
                assert(cur@ + split_spec(rem, d)[0] =~= cur@);
                assert(rest =~= seq![Seq::<u8>::empty() + rest[0]] + rest.skip(1));
                assert((emitted@.push(cur)).map_values(|v: Vec<u8>| v@) =~= emitted@.map_values(
                    |v: Vec<u8>| v@,
                ).push(cur@));
                assert(emitted@.map_values(|v: Vec<u8>| v@) + seq![cur@] + rest
                    =~= (emitted@.push(cur)).map_values(|v: Vec<u8>| v@) + seq![
                    Seq::<u8>::empty() + rest[0],
                ] + rest.skip(1));
            }
            emitted.push(cur);
            cur = Vec::new();
        } else {
            proof {
                assert(split_spec(rem, d) == seq![seq![rem[0]] + rest[0]] + rest.skip(1));
                assert(split_spec(rem, d)[0] == seq![rem[0]] + rest[0]);
                assert(split_spec(rem, d).skip(1) =~= rest.skip(1));
                assert(cur@ + (seq![rem[0]] + rest[0]) =~= (cur@.push(s@[i as int])) + rest[0]);
            }
            cur.push(b);
        }
        i = i + 1;
    }
    proof {
        assert(s@.skip(n as int) =~= Seq::<u8>::empty());
        assert(split_spec(Seq::<u8>::empty(), d) == seq![Seq::<u8>::empty()]);
        assert(cur@ + split_spec(s@.skip(n as int), d)[0] =~= cur@);
        assert(split_spec(s@.skip(n as int), d).skip(1) =~= Seq::<Seq<u8>>::empty());
        assert((emitted@.push(cur)).map_values(|v: Vec<u8>| v@) =~= emitted@.map_values(
            |v: Vec<u8>| v@,
        ).push(cur@));
        assert(emitted@.map_values(|v: Vec<u8>| v@) + seq![cur@] + Seq::<Seq<u8>>::empty()
            =~= (emitted@.push(cur)).map_values(|v: Vec<u8>| v@));
    }
    emitted.push(cur);
    emitted
}

/// An unsigned decimal token: an optional '+', then digits, fitting in usize.
pub open spec fn parse_usize_spec(s: Seq<u8>) -> Option<usize> {
    let body = if s.len() >= 1 && s[0] == 43 {
        s.skip(1)
    } else {
        s
    };
    spec_digits_limited(body, usize::MAX)
}

fn parse_usize_token(v: &Vec<u8>) -> (r: Option<usize>)
    ensures
        r == parse_usize_spec(v@),
{
    let start: usize = if v.len() >= 1 && v[0] == 43 {
        1
    } else {
        0
    };
    proof {
        if start == 0 {
            assert(v@.skip(0) =~= v@);
        }
    }
    parse_digits_limited(v, start, usize::MAX)
}

/// A signed decimal token: an optional sign, then digits, with a magnitude
/// no larger than the greatest signed value.
pub open spec fn parse_isize_spec(s: Seq<u8>) -> Option<isize> {
    let signed = s.len() >= 1 && (s[0] == 45 || s[0] == 43);
    let neg = s.len() >= 1 && s[0] == 45;
    let body = if signed {
        s.skip(1)
    } else {
        s
    };
    match spec_digits_limited(body, isize::MAX as usize) {
        Some(m) => Some(
            if neg {
                (-(m as int)) as isize
            } else {
                m as isize
            },
        ),
        None => None,
    }
}

fn parse_isize_token(v: &Vec<u8>) -> (r: Option<isize>)
    ensures
        r == parse_isize_spec(v@),
{
    let neg = v.len() >= 1 && v[0] == 45;
    let plus = v.len() >= 1 && v[0] == 43;
    let start: usize = if neg || plus {
        1
    } else {
        0
    };
    proof {
        if start == 0 {
            assert(v@.skip(0) =~= v@);
        }
    }
    match parse_digits_limited(v, start, isize::MAX as usize) {
        Some(m) => {
            if neg {
                Some(-(m as isize))
            } else {
                Some(m as isize)
            }
        },
        None => None,
    }
}

/// The ranges one comma-separated token contributes: a single integer `a`
/// becomes the degenerate range (a, a); `a-b` becomes (a, b) even when more
/// dashes follow; a malformed token contributes nothing.
pub open spec fn token_ranges(part: Seq<u8>) -> Seq<(usize, usize)> {
    let pieces = split_spec(part, 45);
    if pieces.len() == 1 {
        match parse_usize_spec(pieces[0]) {
            Some(a) => seq![(a, a)],
            None => Seq::<(usize, usize)>::empty(),
        }
    } else {
        match (parse_usize_spec(pieces[0]), parse_usize_spec(pieces[1])) {
            (Some(a), Some(b)) => seq![(a, b)],
            _ => Seq::<(usize, usize)>::empty(),
        }
    }
}

pub open spec fn condis_from_parts(parts: Seq<Seq<u8>>) -> Seq<(usize, usize)>
    decreases parts.len(),
{
    if parts.len() == 0 {
        Seq::<(usize, usize)>::empty()
    } else {
        condis_from_parts(parts.drop_last()) + token_ranges(parts.last())
    }
}

/// Every well-formed survive/spawn token of the comma-separated list, in
/// order; malformed tokens are silently dropped.
pub open spec fn parse_condis_spec(s: Seq<u8>) -> Seq<(usize, usize)> {
    condis_from_parts(split_spec(s, 44))
}

fn parse_condis_bytes(input: &Vec<u8>) -> (r: Vec<(usize, usize)>)
    ensures
        r@ == parse_condis_spec(input@),
{
    let parts = split_bytes(input, 44);
    let ghost parts_spec = split_spec(input@, 44);
    let mut output: Vec<(usize, usize)> = Vec::new();
    let mut t: usize = 0;
    proof {
        assert(parts@.map_values(|v: Vec<u8>| v@) == parts_spec);
        assert(parts_spec.take(0) =~= Seq::<Seq<u8>>::empty());
    }
    while t < parts.len()
        invariant
            t <= parts@.len(),
            parts@.map_values(|v: Vec<u8>| v@) == parts_spec,
            output@ == condis_from_parts(parts_spec.take(t as int)),
        decreases parts@.len() - t,
    {
        proof {
            assert(parts_spec.take(t + 1).drop_last() =~= parts_spec.take(t as int));
            assert(parts_spec.take(t + 1).last() == parts_spec[t as int]);
            assert(parts@[t as int]@ == parts_spec[t as int]);
        }
        let part = &parts[t];
        let pieces = split_bytes(part, 45);
        let ghost pieces_spec = split_spec(part@, 45);
        proof {
            assert(pieces@.map_values(|v: Vec<u8>| v@) == pieces_spec);
            assert(pieces@.len() == pieces_spec.len());
            lemma_split_spec_len(part@, 45);
        }
        if pieces.len() == 1 {
            proof {
                assert(pieces@[0]@ == pieces_spec[0]);
            }
            match parse_usize_token(&pieces[0]) {
                Some(a) => {
                    output.push((a, a));
                    proof {
                        assert(output@ =~= condis_from_parts(parts_spec.take(t + 1)));
                    }
                },
                None => {
                    proof {
                        assert(output@ =~= condis_from_parts(parts_spec.take(t + 1)));
                    }
                },
            }
        } else {
            proof {
                assert(pieces@[0]@ == pieces_spec[0]);
                assert(pieces@[1]@ == pieces_spec[1]);
            }
            match (parse_usize_token(&pieces[0]), parse_usize_token(&pieces[1])) {
                (Some(a), Some(b)) => {
                    output.push((a, b));
                    proof {
                        assert(output@ =~= condis_from_parts(parts_spec.take(t + 1)));
                    }
                },
                _ => {
                    proof {
                        assert(output@ =~= condis_from_parts(parts_spec.take(t + 1)));
                    }
                },
            }
        }
        t = t + 1;
    }
    proof {
        assert(parts_spec.take(parts_spec.len() as int) =~= parts_spec);
    }
    output
}

/// Parses one comma-separated list of survive or spawn tokens.
pub fn parse_condis(input: &str) -> (r: Vec<(usize, usize)>)
    ensures
        r@ == parse_condis_spec(input.spec_bytes()),
{
    let bytes = vstd::slice::slice_to_vec(input.as_bytes());
    parse_condis_bytes(&bytes)
}

/// A full rule set: survive ranges, spawn ranges, the extra life granted to a
/// fresh cell, and the neighbourhood topology.
#[derive(Debug, Clone)]
pub struct Rules {
    survive: Vec<(usize, usize)>,
    spawn: Vec<(usize, usize)>,
    life: isize,
    neighbourhood: Neighbourhood,
}

impl Rules {
    pub closed spec fn spec_survive(&self) -> Seq<(usize, usize)> {
        self.survive@
    }

    pub closed spec fn spec_spawn(&self) -> Seq<(usize, usize)> {
        self.spawn@
    }

    pub closed spec fn spec_life(&self) -> isize {
        self.life
    }

    pub closed spec fn spec_neighbourhood(&self) -> Neighbourhood {
        self.neighbourhood
    }

    /// Parses the SURVIVE/SPAWN/STATES/NEIGHBOURHOOD grammar. The first four
    /// slash-delimited fields must be present and the state count must parse
    /// and exceed 1; malformed survive/spawn tokens are dropped one by one.
    /// Two of the configured states are the implicit occupied/empty pair, so
    /// the extra life is the state count less two.
    pub fn parse_from_str(input: &str) -> (r: Option<Self>)
        ensures
            ({
                let parts = split_spec(input.spec_bytes(), 47);
                &&& (r is Some <==> parts.len() >= 4 && (parse_isize_spec(parts[2])
                    matches Some(life) && life > 1))
                &&& (r matches Some(rules) ==> {
                    &&& parse_isize_spec(parts[2]) matches Some(life) && rules.spec_life() == life
                        - 2
                    &&& rules.spec_survive() == parse_condis_spec(parts[0])
                    &&& rules.spec_spawn() == parse_condis_spec(parts[1])
                    &&& rules.spec_neighbourhood() == Neighbourhood::spec_parse(parts[3])
                })
            }),
    {
        let bytes = vstd::slice::slice_to_vec(input.as_bytes());
        let x = split_bytes(&bytes, 47);
        let ghost parts = split_spec(input.spec_bytes(), 47);
        proof {
            assert(x@.map_values(|v: Vec<u8>| v@) == parts);
        }
        if x.len() >= 4 {
            proof {
                assert(x@[0]@ == parts[0]);
                assert(x@[1]@ == parts[1]);
                assert(x@[2]@ == parts[2]);
                assert(x@[3]@ == parts[3]);
            }
            if let Some(life) = parse_isize_token(&x[2]) {
                if life > 1 {
                    Some(
                        Self {
                            survive: parse_condis_bytes(&x[0]),
                            spawn: parse_condis_bytes(&x[1]),
                            life: life - 2,
                            neighbourhood: neighbourhood_from_bytes(&x[3]),
                        },
                    )
                } else {
                    None
                }
            } else {
                None
            }
        } else {
            None
        }
    }

    /// A cell is considered for despawning exactly when its neighbour count
    /// lies outside every survive range.
    pub fn check_despawn(&self, n: usize) -> (r: bool)
        ensures
            r == !in_ranges(n, self.spec_survive()),
    {
        check_exclusive(n, &self.survive)
    }

    /// A spawn is eligible exactly when the neighbour count lies inside at
    /// least one spawn range.
    pub fn check_spawn(&self, n: usize) -> (r: bool)
        ensures
            r == in_ranges(n, self.spec_spawn()),
    {
        check_inclusive(n, &self.spawn)
    }

    pub fn life(&self) -> (r: isize)
        ensures
            r == self.spec_life(),
    {
        self.life
    }

    pub fn neighbourhood(&self) -> (r: Neighbourhood)
        ensures
            r == self.spec_neighbourhood(),
    {
        self.neighbourhood
    }
}

impl Default for Rules {
    /// Survive on 5 to 10 neighbours, spawn on exactly 8, five extra life
    /// ticks, Moore topology.
    fn default() -> (r: Self)
        ensures
            r.spec_survive() == seq![(5usize, 10usize)],
            r.spec_spawn() == seq![(8usize, 8usize)],
            r.spec_life() == 5,
            r.spec_neighbourhood() == Neighbourhood::Moore,
    {
        let mut survive: Vec<(usize, usize)> = Vec::new();
        survive.push((5, 10));
        let mut spawn: Vec<(usize, usize)> = Vec::new();
        spawn.push((8, 8));
        proof {
            assert(survive@ =~= seq![(5usize, 10usize)]);
            assert(spawn@ =~= seq![(8usize, 8usize)]);
        }
        Self { survive, spawn, life: 5isize, neighbourhood: Neighbourhood::Moore }
    }
}

fn neighbourhood_from_bytes(v: &Vec<u8>) -> (r: Neighbourhood)
    ensures
        r == Neighbourhood::spec_parse(v@),
{
    if v.len() == 2 && (v[0] == 86 && v[1] == 78 || v[0] == 118 && v[1] == 110) {
        Neighbourhood::VonNeumann
    } else {
        Neighbourhood::Moore
    }
}

} // verus!
