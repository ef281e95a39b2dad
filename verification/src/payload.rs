//! Payload templater: pure text substitution with independent randomness
//! per occurrence. Five tokens are recognized — `{{uuid}}`,
//! `{{timestamp}}`, `{{user}}`, `{{email}}` and `{{number}}` — and each
//! occurrence is replaced with a fresh draw, so repeated tokens each get
//! their own value. Unrecognized `{{...}}` text passes through unchanged.

use vstd::prelude::*;
use crate::text::{format_u64, matches_at, to_ascii_lower, u64_dec};

verus! {

/// The five template tokens.
#[derive(Clone, Copy, Debug, PartialEq, Eq, Structural)]
pub enum TokenKind {
    /// `{{uuid}}`: a fresh random version-4 identifier string.
    Uuid,
    /// `{{timestamp}}`: the wall clock, as decimal milliseconds since
    /// the epoch.
    Timestamp,
    /// `{{user}}`: eight random lower-case alphanumeric characters.
    User,
    /// `{{email}}`: an independent eight-character local part at a fixed
    /// domain.
    Email,
    /// `{{number}}`: a random integer in `[10, 9999)`, in decimal.
    Number,
}

/// The byte pattern of each token.
pub open spec fn token_pat(k: TokenKind) -> Seq<u8> {
    match k {
        TokenKind::Uuid => seq![123u8, 123u8, 117u8, 117u8, 105u8, 100u8, 125u8, 125u8],
        TokenKind::Timestamp => seq![
            123u8, 123u8, 116u8, 105u8, 109u8, 101u8, 115u8, 116u8, 97u8, 109u8, 112u8, 125u8,
            125u8,
        ],
        TokenKind::User => seq![123u8, 123u8, 117u8, 115u8, 101u8, 114u8, 125u8, 125u8],
        TokenKind::Email => seq![123u8, 123u8, 101u8, 109u8, 97u8, 105u8, 108u8, 125u8, 125u8],
        TokenKind::Number => seq![
            123u8, 123u8, 110u8, 117u8, 109u8, 98u8, 101u8, 114u8, 125u8, 125u8,
        ],
    }
}

/// Token `k` occurs in `t` starting at position `i`.
pub open spec fn token_at(t: Seq<u8>, i: int, k: TokenKind) -> bool {
    matches_at(t, token_pat(k), i)
}

/// At most one token can occur at a given position: the five patterns
/// pairwise disagree within their first four bytes.
pub proof fn lemma_token_unique(t: Seq<u8>, i: int, k1: TokenKind, k2: TokenKind)
    requires
        token_at(t, i, k1),
        token_at(t, i, k2),
    ensures
        k1 == k2,
{
    let p1 = token_pat(k1);
    let p2 = token_pat(k2);
    assert(t.subrange(i, i + p1.len() as int)[2] == t[i + 2]);
    assert(t.subrange(i, i + p1.len() as int)[3] == t[i + 3]);
    assert(t.subrange(i, i + p2.len() as int)[2] == t[i + 2]);
    assert(t.subrange(i, i + p2.len() as int)[3] == t[i + 3]);
    assert(t[i + 2] == p1[2] && t[i + 3] == p1[3]);
    assert(t[i + 2] == p2[2] && t[i + 3] == p2[3]);
}

/// An ASCII letter or digit, either case.
pub open spec fn is_alnum_byte(b: u8) -> bool {
    ||| 48 <= b <= 57
    ||| 65 <= b <= 90
    ||| 97 <= b <= 122
}

/// A lower-case ASCII letter or a digit.
pub open spec fn is_lower_alnum_byte(b: u8) -> bool {
    ||| 48 <= b <= 57
    ||| 97 <= b <= 122
}

/// A lower-case hexadecimal digit.
pub open spec fn is_lower_hex_byte(b: u8) -> bool {
    ||| 48 <= b <= 57
    ||| 97 <= b <= 102
}

/// A well-formed hyphenated lower-case version-4 identifier string:
/// 36 bytes, hyphens at positions 8, 13, 18 and 23, lower-case hex
/// everywhere else, the version digit `4` and an RFC variant digit.
pub open spec fn uuid_format(d: Seq<u8>) -> bool {
    &&& d.len() == 36
    &&& d[8] == 45 && d[13] == 45 && d[18] == 45 && d[23] == 45
    &&& forall|j: int|
        0 <= j < 36 && j != 8 && j != 13 && j != 18 && j != 23 ==> is_lower_hex_byte(
            #[trigger] d[j],
        )
    &&& d[14] == 52
    &&& (d[19] == 56 || d[19] == 57 || d[19] == 97 || d[19] == 98)
}

/// The fixed domain appended to a random local part: `@example.com`.
pub open spec fn email_domain() -> Seq<u8> {
    seq![64u8, 101u8, 120u8, 97u8, 109u8, 112u8, 108u8, 101u8, 46u8, 99u8, 111u8, 109u8]
}

/// What a draw for each token kind may look like.
pub open spec fn draw_ok(k: TokenKind, d: Seq<u8>) -> bool {
    match k {
        TokenKind::Uuid => uuid_format(d),
        TokenKind::Timestamp => exists|n: u64| d == u64_dec(n as nat),
        TokenKind::User => d.len() == 8 && forall|j: int|
            0 <= j < 8 ==> is_lower_alnum_byte(#[trigger] d[j]),
        TokenKind::Email => d.len() == 20 && d.subrange(8, 20) == email_domain() && forall|j: int|
            0 <= j < 8 ==> is_lower_alnum_byte(#[trigger] d[j]),
        TokenKind::Number => exists|n: u64| 10 <= n < 9999 && d == u64_dec(n as nat),
    }
}

/// The draws a template consumes, front to back: one per token
/// occurrence, each well-formed for its kind.
pub open spec fn draws_match(t: Seq<u8>, draws: Seq<Seq<u8>>) -> bool
    decreases t.len(),
{
    if t.len() == 0 {
        draws.len() == 0
    } else if exists|k: TokenKind| token_at(t, 0, k) {
        let k = choose|k: TokenKind| token_at(t, 0, k);
        &&& draws.len() > 0
        &&& draw_ok(k, draws[0])
        &&& draws_match(t.skip(token_pat(k).len() as int), draws.drop_first())
    } else {
        draws_match(t.drop_first(), draws)
    }
}

/// The expansion of a template under a given sequence of draws: each
/// token occurrence, scanned front to back, is replaced by the next
/// draw; every other byte passes through.
pub open spec fn expansion(t: Seq<u8>, draws: Seq<Seq<u8>>) -> Seq<u8>
    decreases t.len(),
{
    if t.len() == 0 {
        Seq::empty()
    } else if exists|k: TokenKind| token_at(t, 0, k) {
        let k = choose|k: TokenKind| token_at(t, 0, k);
        draws[0] + expansion(t.skip(token_pat(k).len() as int), draws.drop_first())
    } else {
        seq![t[0]] + expansion(t.drop_first(), draws)
    }
}

/// Relies on rand::random_range over `10..9999`: the result lies in that
/// range; nothing further is assumed of it.
#[verifier::external_body]
fn random_number_draw() -> (n: u64)
    ensures
        10 <= n < 9999,
{
    rand::random_range(10u64..9999u64)
}

/// Relies on rand::rng and rand::distr::Alphanumeric: each sample is an
/// ASCII letter or digit; nothing further is assumed of them.
#[verifier::external_body]
fn random_alnum8() -> (r: Vec<u8>)
    ensures
        r@.len() == 8,
        forall|j: int| 0 <= j < 8 ==> is_alnum_byte(#[trigger] r@[j]),
{
    rand::Rng::sample_iter(rand::rng(), &rand::distr::Alphanumeric).take(8).collect()
}

/// Relies on uuid::Uuid::new_v4 and its hyphenated lower-case display
/// form: 36 bytes with hyphens at 8, 13, 18 and 23, lower-case hex
/// digits elsewhere, version digit 4 and an RFC variant digit.
#[verifier::external_body]
fn random_uuid_draw() -> (r: Vec<u8>)
    ensures
        uuid_format(r@),
{
    uuid::Uuid::new_v4().to_string().into_bytes()
}

/// Relies on std::time::SystemTime::now: the wall clock as whole
/// milliseconds since the Unix epoch, 0 when the clock reads earlier
/// than the epoch. Nothing is assumed of the value.
#[verifier::external_body]
fn now_unix_millis() -> u64 {
    match std::time::SystemTime::now().duration_since(std::time::UNIX_EPOCH) {
        Ok(d) => d.as_millis() as u64,
        Err(_) => 0,
    }
}

/// Draws a fresh replacement for one token occurrence.
fn gen_draw(k: TokenKind) -> (d: Vec<u8>)
    ensures
        draw_ok(k, d@),
{
    match k {
        TokenKind::Uuid => random_uuid_draw(),
        TokenKind::Timestamp => {
            let n = now_unix_millis();
            let d = format_u64(n);
            proof {
                assert(exists|m: u64| d@ == u64_dec(m as nat)) by {
                    assert(d@ == u64_dec(n as nat));
                }
            }
            d
        },
        TokenKind::User => {
            let a = random_alnum8();
            to_ascii_lower(&a)
        },
        TokenKind::Email => {
            let a = random_alnum8();
            let mut d = to_ascii_lower(&a);
            d.push(64);
            d.push(101);
            d.push(120);
            d.push(97);
            d.push(109);
            d.push(112);
            d.push(108);
            d.push(101);
            d.push(46);
            d.push(99);
            d.push(111);
            d.push(109);
            proof {
                assert(d@.subrange(8, 20) =~= email_domain());
            }
            d
        },
        TokenKind::Number => {
            let n = random_number_draw();
            let d = format_u64(n);
            proof {
                assert(exists|m: u64| 10 <= m < 9999 && d@ == u64_dec(m as nat)) by {
                    assert(10 <= n < 9999 && d@ == u64_dec(n as nat));
                }
            }
            d
        },
    }
}

/// The length of each token's pattern.
fn token_pat_len(k: TokenKind) -> (n: usize)
    ensures
        n == token_pat(k).len(),
        1 <= n,
{
    match k {
        TokenKind::Uuid => 8,
        TokenKind::Timestamp => 13,
        TokenKind::User => 8,
        TokenKind::Email => 9,
        TokenKind::Number => 10,
    }
}

/// Builds the byte pattern of one token.
fn token_pat_vec(k: TokenKind) -> (r: Vec<u8>)
    ensures
        r@ == token_pat(k),
{
    let mut r: Vec<u8> = Vec::new();
    r.push(123);
    r.push(123);
    match k {
        TokenKind::Uuid => {
            r.push(117);
            r.push(117);
            r.push(105);
            r.push(100);
        },
        TokenKind::Timestamp => {
            r.push(116);
            r.push(105);
            r.push(109);
            r.push(101);
            r.push(115);
            r.push(116);
            r.push(97);
            r.push(109);
            r.push(112);
        },
        TokenKind::User => {
            r.push(117);
            r.push(115);
            r.push(101);
            r.push(114);
        },
        TokenKind::Email => {
            r.push(101);
            r.push(109);
            r.push(97);
            r.push(105);
            r.push(108);
        },
        TokenKind::Number => {
            r.push(110);
            r.push(117);
            r.push(109);
            r.push(98);
            r.push(101);
            r.push(114);
        },
    }
    r.push(125);
    r.push(125);
    proof {
        assert(r@ =~= token_pat(k));
    }
    r
}

/// Looks for one of the five tokens starting at position `i`.
fn match_token_at(t: &Vec<u8>, i: usize) -> (r: Option<TokenKind>)
    ensures
        match r {
            Some(k) => token_at(t@, i as int, k),
            None => forall|k: TokenKind| !token_at(t@, i as int, k),
        },
{
    let uuid_pat = token_pat_vec(TokenKind::Uuid);
    if crate::text::check_match_at(t, &uuid_pat, i) {
        return Some(TokenKind::Uuid);
    }
    let ts_pat = token_pat_vec(TokenKind::Timestamp);
    if crate::text::check_match_at(t, &ts_pat, i) {
        return Some(TokenKind::Timestamp);
    }
    let user_pat = token_pat_vec(TokenKind::User);
    if crate::text::check_match_at(t, &user_pat, i) {
        return Some(TokenKind::User);
    }
    let email_pat = token_pat_vec(TokenKind::Email);
    if crate::text::check_match_at(t, &email_pat, i) {
        return Some(TokenKind::Email);
    }
    let number_pat = token_pat_vec(TokenKind::Number);
    if crate::text::check_match_at(t, &number_pat, i) {
        return Some(TokenKind::Number);
    }
    None
}

/// Expands a body template: every token occurrence, scanned front to
/// back, is replaced with an independent fresh draw of its kind, and
/// everything else passes through unchanged.
pub fn process_payload(template: &Vec<u8>) -> (r: Vec<u8>)
    ensures
        exists|draws: Seq<Seq<u8>>|
            #[trigger] draws_match(template@, draws) && r@ == expansion(template@, draws),
{
    let mut out: Vec<u8> = Vec::new();
    let mut i: usize = 0;
    let ghost mut acc: Seq<Seq<u8>> = Seq::empty();
    proof {
        assert(template@.skip(0) =~= template@);
        assert forall|fd: Seq<Seq<u8>>|
            #[trigger] draws_match(template@.skip(0), fd) implies draws_match(template@, acc + fd)
            && expansion(template@, acc + fd) == out@ + expansion(template@.skip(0), fd) by {
            assert(acc + fd =~= fd);
            assert(out@ + expansion(template@, fd) =~= expansion(template@, fd));
        }
    }
    while i < template.len()
        invariant
            i <= template@.len(),
            forall|fd: Seq<Seq<u8>>|
                #[trigger] draws_match(template@.skip(i as int), fd) ==> draws_match(
                    template@,
                    acc + fd,
                ) && expansion(template@, acc + fd) == out@ + expansion(
                    template@.skip(i as int),
                    fd,
                ),
        decreases template@.len() - i,
    {
        let ghost t = template@;
        let ghost rest = t.skip(i as int);
        match match_token_at(template, i) {
            Some(k) => {
                let d = gen_draw(k);
                let plen = token_pat_len(k);
                proof {
                    assert(i + plen <= t.len());
                }
                let ghost rest2 = t.skip(i + plen as int);
                proof {
                    assert(rest.subrange(0, plen as int) =~= t.subrange(
                        i as int,
                        i + plen as int,
                    ));
                    assert(token_at(rest, 0, k));
                    let k0 = choose|k0: TokenKind| token_at(rest, 0, k0);
                    lemma_token_unique(rest, 0, k0, k);
                    assert(rest.skip(plen as int) =~= rest2);
                    assert forall|fd2: Seq<Seq<u8>>|
                        #[trigger] draws_match(rest2, fd2) implies draws_match(
                        t,
                        acc.push(d@) + fd2,
                    ) && expansion(t, acc.push(d@) + fd2) == (out@ + d@) + expansion(
                        rest2,
                        fd2,
                    ) by {
                        let fd = seq![d@] + fd2;
                        assert(fd[0] == d@);
                        assert(fd.drop_first() =~= fd2);
                        assert(draws_match(rest, fd));
                        assert(acc + fd =~= acc.push(d@) + fd2);
                        assert(expansion(rest, fd) == d@ + expansion(rest2, fd2));
                        assert(draws_match(t, acc + fd));
                        assert(expansion(t, acc + fd) == out@ + expansion(rest, fd));
                        assert(out@ + (d@ + expansion(rest2, fd2)) =~= (out@ + d@) + expansion(
                            rest2,
                            fd2,
                        ));
                    }
                    acc = acc.push(d@);
                }
                crate::text::append_bytes(&mut out, &d);
                i = i + plen;
            },
            None => {
                let b = template[i];
                proof {
                    assert(rest.len() > 0);
                    assert forall|k: TokenKind| !token_at(rest, 0, k) by {
                        if token_at(rest, 0, k) {
                            assert(rest.subrange(0, token_pat(k).len() as int) =~= t.subrange(
                                i as int,
                                i + token_pat(k).len() as int,
                            ));
                            assert(token_at(t, i as int, k));
                        }
                    }
                    assert(rest.drop_first() =~= t.skip(i + 1));
                    assert(rest[0] == t[i as int]);
                    assert forall|fd2: Seq<Seq<u8>>|
                        #[trigger] draws_match(t.skip(i + 1), fd2) implies draws_match(
                        t,
                        acc + fd2,
                    ) && expansion(t, acc + fd2) == out@.push(b) + expansion(
                        t.skip(i + 1),
                        fd2,
                    ) by {
                        assert(draws_match(rest, fd2));
                        assert(expansion(rest, fd2) == seq![t[i as int]] + expansion(
                            t.skip(i + 1),
                            fd2,
                        ));
                        assert(expansion(t, acc + fd2) == out@ + expansion(rest, fd2));
                        assert(out@ + (seq![t[i as int]] + expansion(t.skip(i + 1), fd2))
                            =~= out@.push(b) + expansion(t.skip(i + 1), fd2));
                    }
                }
                out.push(b);
                i = i + 1;
            },
        }
    }
    proof {
        let t = template@;
        assert(t.skip(t.len() as int) =~= Seq::<u8>::empty());
        assert(draws_match(Seq::<u8>::empty(), Seq::<Seq<u8>>::empty()));
        assert(draws_match(t, acc + Seq::<Seq<u8>>::empty()) && expansion(
            t,
            acc + Seq::<Seq<u8>>::empty(),
        ) == out@ + expansion(Seq::<u8>::empty(), Seq::<Seq<u8>>::empty()));
        assert(acc + Seq::<Seq<u8>>::empty() =~= acc);
        assert(out@ + expansion(Seq::<u8>::empty(), Seq::<Seq<u8>>::empty()) =~= out@);
        assert(draws_match(t, acc) && out@ == expansion(t, acc));
    }
    out
}

} // verus!
