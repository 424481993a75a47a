//! Connection handshake authority: issues opaque 64-bit tokens bound to
//! the requester's address and a short validity window, and validates the
//! token carried by later requests. An announce whose token was never
//! issued, has expired, or was issued to another address is rejected.
use vstd::prelude::*;

verus! {

/// How long an issued token stays valid, in seconds.
pub const TOKEN_WINDOW: u64 = 120;

/// One issued token: the value, the address it binds, and when it was
/// issued.
#[derive(Clone, Copy, Debug, PartialEq, Eq, Structural)]
pub struct TokenEntry {
    pub token: u64,
    pub ip: u32,
    pub port: u16,
    pub issued: u64,
}

/// No two entries carry the same token value.
pub open spec fn distinct_tokens(s: Seq<TokenEntry>) -> bool {
    forall|i: int, j: int| 0 <= i < j < s.len() ==> s[i].token != s[j].token
}

/// Some entry carries this token value.
pub open spec fn has_token(s: Seq<TokenEntry>, token: u64) -> bool {
    exists|i: int| 0 <= i < s.len() && s[i].token == token
}

/// The index of the entry with this token (meaningful when `has_token`
/// holds; with `distinct_tokens` it is the unique such index).
pub open spec fn token_index(s: Seq<TokenEntry>, token: u64) -> int {
    choose|i: int| 0 <= i < s.len() && s[i].token == token
}

/// The table after issuing an entry: an entry with the same token value is
/// overwritten, else the new entry is appended.
pub open spec fn issue_spec(s: Seq<TokenEntry>, e: TokenEntry) -> Seq<TokenEntry> {
    if has_token(s, e.token) {
        s.update(token_index(s, e.token), e)
    } else {
        s.push(e)
    }
}

/// A token is accepted at `now` exactly when some entry carries it for
/// this address, issued no later than `now` and within the window.
pub open spec fn token_valid(
    s: Seq<TokenEntry>,
    token: u64,
    ip: u32,
    port: u16,
    now: u64,
) -> bool {
    exists|i: int|
        0 <= i < s.len() && s[i].token == token && s[i].ip == ip && s[i].port == port
            && s[i].issued <= now && now - s[i].issued <= TOKEN_WINDOW
}

/// Relies on rand::random: a fresh value drawn from the thread-local
/// generator. Nothing is promised of it; every caller's contract holds
/// whatever value comes back.
#[verifier::external_body]
fn fresh_token_value() -> u64 {
    rand::random::<u64>()
}

/// The table of issued connection tokens.
pub struct ConnectionAuthority {
    entries: Vec<TokenEntry>,
}

impl View for ConnectionAuthority {
    type V = Seq<TokenEntry>;

    closed spec fn view(&self) -> Seq<TokenEntry> {
        self.entries@
    }
}

impl ConnectionAuthority {
    /// The authority's invariant: token values are unique.
    pub open spec fn wf(&self) -> bool {
        distinct_tokens(self@)
    }

    /// An authority with no tokens issued.
    pub fn new() -> (s: Self)
        ensures
            s.wf(),
            s@ == Seq::<TokenEntry>::empty(),
    {
        ConnectionAuthority { entries: Vec::new() }
    }

    /// How many tokens are on record.
    pub fn token_count(&self) -> (n: usize)
        ensures
            n == self@.len(),
    {
        self.entries.len()
    }

    /// The index of the entry carrying this token value, if one exists.
    fn find_token(&self, token: u64) -> (r: Option<usize>)
        ensures
            match r {
                Some(i) => 0 <= i < self@.len() && self@[i as int].token == token && has_token(
                    self@,
                    token,
                ),
                None => !has_token(self@, token),
            },
    {
        let n = self.entries.len();
        let mut i: usize = 0;
        while i < n
            invariant
                n == self@.len(),
                i <= n,
                forall|j: int| 0 <= j < i ==> self@[j].token != token,
            decreases n - i,
        {
            if self.entries[i].token == token {
                return Some(i);
            }
            i = i + 1;
        }
        None
    }

    /// Issues a fresh token bound to the requester's address at `now`.
    /// The token value is unpredictable; the contract holds for every
    /// value the generator returns.
    pub fn issue(&mut self, ip: u32, port: u16, now: u64) -> (token: u64)
        requires
            old(self).wf(),
        ensures
            final(self).wf(),
            final(self)@ == issue_spec(
                old(self)@,
                TokenEntry { token, ip, port, issued: now },
            ),
    {
        let token = fresh_token_value();
        let entry = TokenEntry { token, ip, port, issued: now };
        let ghost s = self@;
        match self.find_token(token) {
            Some(i) => {
                proof {
                    let w = token_index(s, token);
                    assert(0 <= w < s.len() && s[w].token == token);
                    assert(w == i as int);
                }
                self.entries.remove(i);
                self.entries.insert(i, entry);
                proof {
                    assert(self@ =~= s.update(i as int, entry));
                    assert forall|a: int, b: int| 0 <= a < b < self@.len() implies self@[a].token
                        != self@[b].token by {
                        assert(s[a].token != s[b].token);
                    }
                }
            },
            None => {
                self.entries.push(entry);
                proof {
                    assert(self@ =~= s.push(entry));
                    assert forall|a: int, b: int| 0 <= a < b < self@.len() implies self@[a].token
                        != self@[b].token by {
                        if b < s.len() {
                            assert(s[a].token != s[b].token);
                        }
                    }
                }
            },
        }
        token
    }

    /// Whether `token` was issued to this address and is still within its
    /// validity window at `now`.
    pub fn validate(&self, token: u64, ip: u32, port: u16, now: u64) -> (r: bool)
        ensures
            r == token_valid(self@, token, ip, port, now),
    {
        let ghost s = self@;
        let n = self.entries.len();
        let mut i: usize = 0;
        while i < n
            invariant
                n == s.len(),
                s == self@,
                i <= n,
                forall|j: int|
                    0 <= j < i ==> !(s[j].token == token && s[j].ip == ip && s[j].port == port
                        && s[j].issued <= now && now - s[j].issued <= TOKEN_WINDOW),
            decreases n - i,
        {
            let e = self.entries[i];
            if e.token == token && e.ip == ip && e.port == port && e.issued <= now && now
                - e.issued <= TOKEN_WINDOW {
                return true;
            }
            i = i + 1;
        }
        false
    }
}

/// Token validity: a token just issued to an address is accepted exactly
/// for that address, and exactly while the validity window lasts.
pub proof fn lemma_token_validity(
    s: Seq<TokenEntry>,
    token: u64,
    ip: u32,
    port: u16,
    issued: u64,
    other_ip: u32,
    other_port: u16,
    now: u64,
)
    requires
        distinct_tokens(s),
    ensures
        ({
            let s1 = issue_spec(s, TokenEntry { token, ip, port, issued });
            &&& (issued <= now && now - issued <= TOKEN_WINDOW) == token_valid(
                s1,
                token,
                ip,
                port,
                now,
            )
            &&& !(other_ip == ip && other_port == port) ==> !token_valid(
                s1,
                token,
                other_ip,
                other_port,
                now,
            )
        }),
{
    let e = TokenEntry { token, ip, port, issued };
    let s1 = issue_spec(s, e);
    let i = if has_token(s, token) {
        token_index(s, token)
    } else {
        s.len() as int
    };
    if has_token(s, token) {
        assert(0 <= i < s.len() && s[i].token == token);
    }
    assert(s1[i] == e);
    assert forall|j: int| 0 <= j < s1.len() && s1[j].token == token implies j == i by {
        if j != i {
            assert(s1[j] == s[j]);
            if has_token(s, token) {
                assert(s[j].token != s[i].token);
            }
        }
    }
    if issued <= now && now - issued <= TOKEN_WINDOW {
        assert(token_valid(s1, token, ip, port, now));
    }
}

} // verus!
