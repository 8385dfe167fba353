//! Issued client tokens: random UUIDs in their hyphenated text form. Tokens
//! are kept for the life of the process and never expire.
use vstd::prelude::*;

verus! {

/// The lowercase hexadecimal digit of a value below 16.
pub open spec fn hex_digit(n: u128) -> char {
    seq!['0', '1', '2', '3', '4', '5', '6', '7', '8', '9', 'a', 'b', 'c', 'd', 'e', 'f'][n as int]
}

/// The `k`-th hexadecimal digit of `id`, counted from the most significant.
pub open spec fn nibble(id: u128, k: int) -> u128 {
    (id >> ((124 - 4 * k) as u128)) & 15
}

/// How many hyphens stand before position `i` of the hyphenated form.
pub open spec fn hyphens_before(i: int) -> int {
    (if i > 8 { 1int } else { 0 }) + (if i > 13 { 1int } else { 0 }) + (if i > 18 { 1int } else {
        0
    }) + (if i > 23 { 1int } else { 0 })
}

/// The hyphenated form of a UUID: its 32 hexadecimal digits, most significant
/// first, in groups of 8, 4, 4, 4 and 12 joined by hyphens.
pub open spec fn hyphenated(id: u128) -> Seq<char> {
    Seq::new(
        36,
        |i: int|
            if i == 8 || i == 13 || i == 18 || i == 23 {
                '-'
            } else {
                hex_digit(nibble(id, i - hyphens_before(i)))
            },
    )
}

/// `id` carries version 4 and the RFC 4122 variant, as every random UUID does.
pub open spec fn is_random_v4(id: u128) -> bool {
    (id >> 76u128) & 15 == 4 && (id >> 62u128) & 3 == 2
}

/// Relies on uuid's `Uuid::new_v4` for a random version 4 UUID, read back as
/// its 128-bit value by `Uuid::as_u128`. The bits are random but for the
/// version field, always 4, and the variant field, always `10` in binary.
#[verifier::external_body]
fn random_uuid() -> (r: u128)
    ensures
        is_random_v4(r),
{
    uuid::Uuid::new_v4().as_u128()
}

/// Relies on uuid's `Uuid::from_u128` and its `Display`, which writes the
/// lowercase hyphenated form of the value's big-endian bytes.
#[verifier::external_body]
fn uuid_text(id: u128) -> (r: String)
    ensures
        r@ == hyphenated(id),
{
    uuid::Uuid::from_u128(id).to_string()
}

proof fn lemma_nibble_base(x: u128, y: u128)
    requires
        (x >> 124u128) & 15 == (y >> 124u128) & 15,
    ensures
        x >> 124u128 == y >> 124u128,
{
    assert((x >> 124u128) & 15 == (y >> 124u128) & 15 ==> x >> 124u128 == y >> 124u128)
        by (bit_vector);
}

proof fn lemma_nibble_step(x: u128, y: u128, s: u128)
    requires
        s <= 120,
        x >> (s + 4) == y >> (s + 4),
        (x >> s) & 15 == (y >> s) & 15,
    ensures
        x >> s == y >> s,
{
    assert(s <= 120 && x >> (s + 4) == y >> (s + 4) && (x >> s) & 15 == (y >> s) & 15 ==> x >> s
        == y >> s) by (bit_vector);
}

proof fn lemma_leading_nibbles(a: u128, b: u128, k: int)
    requires
        0 <= k < 32,
        forall|j: int| 0 <= j <= k ==> #[trigger] nibble(a, j) == nibble(b, j),
    ensures
        a >> ((124 - 4 * k) as u128) == b >> ((124 - 4 * k) as u128),
    decreases k,
{
    if k == 0 {
        assert(nibble(a, 0) == nibble(b, 0));
        lemma_nibble_base(a, b);
    } else {
        lemma_leading_nibbles(a, b, k - 1);
        assert(nibble(a, k) == nibble(b, k));
        let s = (124 - 4 * k) as u128;
        assert(s + 4 == (124 - 4 * (k - 1)) as u128);
        lemma_nibble_step(a, b, s);
    }
}

/// Distinct UUID values have distinct hyphenated forms.
pub proof fn lemma_hyphenated_injective(a: u128, b: u128)
    requires
        a != b,
    ensures
        hyphenated(a) != hyphenated(b),
{
    if hyphenated(a) == hyphenated(b) {
        assert forall|j: int| 0 <= j <= 31 implies #[trigger] nibble(a, j) == nibble(b, j) by {
            let i = j + (if j >= 8 { 1int } else { 0 }) + (if j >= 12 { 1int } else { 0 }) + (if j
                >= 16 { 1int } else { 0 }) + (if j >= 20 { 1int } else { 0 });
            assert(hyphenated(a)[i] == hyphenated(b)[i]);
            let s = (124 - 4 * j) as u128;
            assert((a >> s) & 15 < 16) by (bit_vector);
            assert((b >> s) & 15 < 16) by (bit_vector);
        }
        lemma_leading_nibbles(a, b, 31);
        assert(a >> 0u128 == a) by (bit_vector);
        assert(b >> 0u128 == b) by (bit_vector);
    }
}

/// The tokens issued so far, each kept once.
pub struct TokenRegistry {
    tokens: Vec<String>,
}

impl View for TokenRegistry {
    type V = Set<Seq<char>>;

    closed spec fn view(&self) -> Set<Seq<char>> {
        self.tokens@.map_values(|t: String| t@).to_set()
    }
}

impl TokenRegistry {
    /// A registry with no token.
    pub fn new() -> (r: TokenRegistry)
        ensures
            r@ == Set::<Seq<char>>::empty(),
    {
        let r = TokenRegistry { tokens: Vec::new() };
        assert(r@ =~= Set::<Seq<char>>::empty());
        r
    }

    /// The token is among those issued.
    pub fn contains(&self, token: &String) -> (r: bool)
        ensures
            r == self@.contains(token@),
    {
        let ghost s = self.tokens@.map_values(|t: String| t@);
        let n = self.tokens.len();
        let mut i: usize = 0;
        while i < n
            invariant
                n == self.tokens@.len(),
                s == self.tokens@.map_values(|t: String| t@),
                i <= n,
                forall|k: int| 0 <= k < i ==> s[k] != token@,
            decreases n - i,
        {
            if self.tokens[i] == *token {
                assert(s[i as int] == token@);
                return true;
            }
            i = i + 1;
        }
        assert(!s.contains(token@));
        false
    }

    /// Keeps `token`; keeping one already held changes nothing.
    pub fn record(&mut self, token: String)
        ensures
            final(self)@ == old(self)@.insert(token@),
    {
        if !self.contains(&token) {
            let ghost s = self.tokens@.map_values(|t: String| t@);
            let ghost tv = token@;
            self.tokens.push(token);
            assert(self.tokens@.map_values(|t: String| t@) =~= s.push(tv));
            assert(s.push(tv).to_set() =~= s.to_set().insert(tv)) by {
                assert forall|x: Seq<char>| s.push(tv).contains(x) <==> s.contains(x) || x == tv by {
                    if s.contains(x) {
                        let k = choose|k: int| 0 <= k < s.len() && s[k] == x;
                        assert(s.push(tv)[k] == x);
                    }
                    if x == tv {
                        assert(s.push(tv)[s.len() as int] == x);
                    }
                }
            }
        } else {
            assert(old(self)@.insert(token@) =~= old(self)@);
        }
    }

    /// Issues the token written from the UUID value `id` and keeps it.
    pub fn issue_from(&mut self, id: u128) -> (r: String)
        ensures
            r@ == hyphenated(id),
            final(self)@ == old(self)@.insert(r@),
    {
        let t = uuid_text(id);
        let r = t.clone();
        self.record(t);
        r
    }

    /// Issues a fresh random token and keeps it. The token is the hyphenated
    /// form of a random version 4 UUID.
    pub fn issue(&mut self) -> (r: String)
        ensures
            exists|id: u128| r@ == #[trigger] hyphenated(id) && is_random_v4(id),
            r@.len() == 36,
            final(self)@ == old(self)@.insert(r@),
    {
        let id = random_uuid();
        self.issue_from(id)
    }
}

/// Two issues from distinct UUID values give two distinct tokens, and both
/// are kept alongside every token issued before.
pub proof fn lemma_two_issues_both_kept(before: Set<Seq<char>>, a: u128, b: u128)
    requires
        a != b,
    ensures
        hyphenated(a) != hyphenated(b),
        before.insert(hyphenated(a)).insert(hyphenated(b)).contains(hyphenated(a)),
        before.insert(hyphenated(a)).insert(hyphenated(b)).contains(hyphenated(b)),
        before.subset_of(before.insert(hyphenated(a)).insert(hyphenated(b))),
{
    lemma_hyphenated_injective(a, b);
}

} // verus!
