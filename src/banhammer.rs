use vstd::prelude::*;

use crate::identity::{lemma_push_unique_distinct, push_unique, views, ClientAddr, Identity, SenderAddr, Token};
use crate::table::{Decay, Table};

verus! {

/// Accumulated violation counts of one identity since its last decay.
#[derive(Debug, Clone, PartialEq, Eq, Hash)]
pub struct BanProgress {
    pub incorrect_nonce: u32,
    pub max_gas: u32,
    pub revert: Vec<String>,
    pub excessive_gas: u32,
}

/// What a `BanProgress` holds, with the revert messages as character sequences.
pub struct ProgressView {
    pub incorrect_nonce: u32,
    pub max_gas: u32,
    pub revert: Seq<Seq<char>>,
    pub excessive_gas: u32,
}

impl ProgressView {
    /// No violation recorded.
    pub open spec fn zero() -> ProgressView {
        ProgressView { incorrect_nonce: 0, max_gas: 0, revert: Seq::empty(), excessive_gas: 0 }
    }
}

impl View for BanProgress {
    type V = ProgressView;

    open spec fn view(&self) -> ProgressView {
        ProgressView {
            incorrect_nonce: self.incorrect_nonce,
            max_gas: self.max_gas,
            revert: self.revert@.map_values(|m: String| m@),
            excessive_gas: self.excessive_gas,
        }
    }
}

impl BanProgress {
    pub fn new() -> (r: BanProgress)
        ensures
            r@ == ProgressView::zero(),
    {
        let r = BanProgress { incorrect_nonce: 0, max_gas: 0, revert: Vec::new(), excessive_gas: 0 };
        assert(r@.revert =~= Seq::<Seq<char>>::empty());
        r
    }
}

/// Why an identity was banned.
#[derive(Debug, Clone, PartialEq, Eq, Hash)]
pub enum BanKind {
    IncorrectNonce,
    MaxGas,
    Revert(String),
    ExcessiveGas(u32),
}

/// The violation that a relayed transaction ended with.
#[derive(Debug, Clone, PartialEq, Eq, Hash)]
pub enum TransactionError {
    ErrIncorrectNonce,
    MaxGas,
    Revert(String),
    /// A fault of the relayer itself, never held against the sender.
    Relayer(String),
}

/// Thresholds and decay interval of the ban policy.
#[derive(Debug, Clone, Copy, PartialEq, Eq, Hash, Structural)]
pub struct Config {
    /// Decay interval, in seconds.
    pub timeframe: u64,
    pub incorrect_nonce_threshold: u32,
    pub max_gas_threshold: u32,
    pub revert_threshold: u32,
    pub token_multiplier: u32,
}

impl Config {
    pub fn new(
        timeframe: u64,
        incorrect_nonce_threshold: u32,
        max_gas_threshold: u32,
        revert_threshold: u32,
        token_multiplier: u32,
    ) -> (r: Config)
        ensures
            r == (Config {
                timeframe,
                incorrect_nonce_threshold,
                max_gas_threshold,
                revert_threshold,
                token_multiplier,
            }),
    {
        Config {
            timeframe,
            incorrect_nonce_threshold,
            max_gas_threshold,
            revert_threshold,
            token_multiplier,
        }
    }

    /// The decay interval in nanoseconds.
    pub open spec fn interval(&self) -> int {
        self.timeframe * 1_000_000_000
    }
}

/// The threshold that applies: the base one, scaled by the token multiplier
/// when a token takes part in the event.
pub open spec fn effective_threshold(base: u32, multiplier: u32, has_token: bool) -> int {
    if has_token {
        base * multiplier
    } else {
        base as int
    }
}

/// A counter after one more violation; it stays at the top of its range.
pub open spec fn bump(x: u32) -> u32 {
    if x < u32::MAX {
        (x + 1) as u32
    } else {
        x
    }
}

/// The progress after an event with the given violation.
pub open spec fn progress_after(p: ProgressView, maybe_error: Option<&TransactionError>) -> ProgressView {
    match maybe_error {
        Some(TransactionError::ErrIncorrectNonce) => ProgressView { incorrect_nonce: bump(p.incorrect_nonce), ..p },
        Some(TransactionError::MaxGas) => ProgressView { max_gas: bump(p.max_gas), ..p },
        Some(TransactionError::Revert(msg)) => ProgressView { revert: p.revert.push(msg@), ..p },
        _ => p,
    }
}

/// Whether progress `p`, already updated for the event, calls for a ban.
/// A revert is judged by the max-gas count against the revert threshold.
pub open spec fn should_ban(
    p: ProgressView,
    config: Config,
    has_token: bool,
    maybe_error: Option<&TransactionError>,
) -> bool {
    match maybe_error {
        Some(TransactionError::ErrIncorrectNonce) => p.incorrect_nonce >= effective_threshold(
            config.incorrect_nonce_threshold,
            config.token_multiplier,
            has_token,
        ),
        Some(TransactionError::MaxGas) => p.max_gas >= effective_threshold(
            config.max_gas_threshold,
            config.token_multiplier,
            has_token,
        ),
        Some(TransactionError::Revert(_)) => p.max_gas >= effective_threshold(
            config.revert_threshold,
            config.token_multiplier,
            has_token,
        ),
        _ => false,
    }
}

/// The threshold for one violation kind, as `effective_threshold` states it.
pub fn threshold(base: u32, multiplier: u32, has_token: bool) -> (r: u64)
    ensures
        r == effective_threshold(base, multiplier, has_token),
{
    if has_token {
        proof {
            vstd::arithmetic::mul::lemma_mul_upper_bound(base as int, u32::MAX as int, multiplier as int, u32::MAX as int);
        }
        (base as u64) * (multiplier as u64)
    } else {
        base as u64
    }
}

fn bump_count(x: u32) -> (r: u32)
    ensures
        r == bump(x),
{
    if x < u32::MAX {
        x + 1
    } else {
        x
    }
}

/// Records the violation of one event in `ban_progress` and says whether the
/// identity is now to be banned.
pub fn check_error_ban(
    ban_progress: &mut BanProgress,
    config: &Config,
    token: Option<&Token>,
    maybe_error: Option<&TransactionError>,
) -> (r: bool)
    ensures
        final(ban_progress)@ == progress_after(old(ban_progress)@, maybe_error),
        r == should_ban(final(ban_progress)@, *config, token.is_some(), maybe_error),
{
    let error = match maybe_error {
        Some(error) => error,
        None => {
            return false;
        },
    };
    match error {
        TransactionError::ErrIncorrectNonce => {
            let threshold = threshold(config.incorrect_nonce_threshold, config.token_multiplier, token.is_some());
            ban_progress.incorrect_nonce = bump_count(ban_progress.incorrect_nonce);
            ban_progress.incorrect_nonce as u64 >= threshold
        },
        TransactionError::MaxGas => {
            let threshold = threshold(config.max_gas_threshold, config.token_multiplier, token.is_some());
            ban_progress.max_gas = bump_count(ban_progress.max_gas);
            ban_progress.max_gas as u64 >= threshold
        },
        TransactionError::Revert(msg) => {
            let threshold = threshold(config.revert_threshold, config.token_multiplier, token.is_some());
            let ghost pre = ban_progress.revert@;
            ban_progress.revert.push(msg.clone());
            assert(ban_progress.revert@.map_values(|m: String| m@) =~= pre.map_values(|m: String| m@).push(msg@));
            ban_progress.max_gas as u64 >= threshold
        },
        TransactionError::Relayer(_) => false,
    }
}

/// The list `s` with `x` appended, unless `x` is in it already.
pub open spec fn with_new<V>(s: Seq<V>, x: V) -> Seq<V> {
    if s.contains(x) {
        s
    } else {
        s.push(x)
    }
}

/// `with_new` for an identity that may be absent.
pub open spec fn with_maybe<V>(s: Seq<V>, x: Option<V>) -> Seq<V> {
    match x {
        Some(v) => with_new(s, v),
        None => s,
    }
}

/// What a network client has been seen with, and its progress.
#[derive(Debug, Clone, PartialEq, Eq, Hash)]
pub struct UserClient {
    pub tokens: Vec<Token>,
    pub froms: Vec<SenderAddr>,
    pub ban_progress: BanProgress,
    pub banned: Option<BanKind>,
}

/// What a sending account has been seen with, and its progress.
#[derive(Debug, Clone, PartialEq, Eq, Hash)]
pub struct UserFrom {
    pub clients: Vec<ClientAddr>,
    pub tokens: Vec<Token>,
    pub ban_progress: BanProgress,
    pub banned: Option<BanKind>,
}

/// What an access token has been seen with, and its progress.
#[derive(Debug, Clone, PartialEq, Eq, Hash)]
pub struct UserToken {
    pub clients: Vec<ClientAddr>,
    pub froms: Vec<SenderAddr>,
    pub ban_progress: BanProgress,
    pub banned: Option<BanKind>,
}

impl UserClient {
    pub fn new() -> (r: UserClient)
        ensures
            r.tokens@.len() == 0,
            r.froms@.len() == 0,
            r.ban_progress@ == ProgressView::zero(),
            r.banned.is_none(),
    {
        UserClient { tokens: Vec::new(), froms: Vec::new(), ban_progress: BanProgress::new(), banned: None }
    }

    /// No identity is listed twice.
    pub open spec fn distinct(&self) -> bool {
        views(self.tokens@).no_duplicates() && views(self.froms@).no_duplicates()
    }
}

impl UserFrom {
    pub fn new() -> (r: UserFrom)
        ensures
            r.clients@.len() == 0,
            r.tokens@.len() == 0,
            r.ban_progress@ == ProgressView::zero(),
            r.banned.is_none(),
    {
        UserFrom { clients: Vec::new(), tokens: Vec::new(), ban_progress: BanProgress::new(), banned: None }
    }

    /// No identity is listed twice.
    pub open spec fn distinct(&self) -> bool {
        views(self.clients@).no_duplicates() && views(self.tokens@).no_duplicates()
    }
}

impl UserToken {
    pub fn new() -> (r: UserToken)
        ensures
            r.clients@.len() == 0,
            r.froms@.len() == 0,
            r.ban_progress@ == ProgressView::zero(),
            r.banned.is_none(),
    {
        UserToken { clients: Vec::new(), froms: Vec::new(), ban_progress: BanProgress::new(), banned: None }
    }

    /// No identity is listed twice.
    pub open spec fn distinct(&self) -> bool {
        views(self.clients@).no_duplicates() && views(self.froms@).no_duplicates()
    }
}

impl Decay for UserClient {
    open spec fn decayed_from(&self, before: &Self) -> bool {
        &&& self.tokens == before.tokens
        &&& self.froms == before.froms
        &&& self.banned == before.banned
        &&& self.ban_progress@ == ProgressView::zero()
    }

    fn decay(&mut self) {
        self.ban_progress = BanProgress::new();
    }
}

/// An identity on one of the three axes.
#[derive(Debug, Clone, PartialEq, Eq, Hash)]
pub enum BannedUserKind {
    Client(ClientAddr),
    Token(Token),
    From(SenderAddr),
}

/// The identities that have been banned, each with its frozen entry.
#[derive(Debug)]
pub struct BanList {
    pub clients: Table<ClientAddr, UserClient>,
    pub tokens: Table<Token, UserToken>,
    pub froms: Table<SenderAddr, UserFrom>,
}

/// One relayed transaction, as far as the ban engine reads it.
#[derive(Debug, Clone, PartialEq, Eq, Hash)]
pub struct RelayerInput {
    pub client: ClientAddr,
    pub from: SenderAddr,
    pub token: Option<Token>,
    pub error: Option<TransactionError>,
}

/// The violation of an input, borrowed.
pub open spec fn error_ref(e: &Option<TransactionError>) -> Option<&TransactionError> {
    match e {
        Some(x) => Some(x),
        None => None,
    }
}

/// The token of an input, as a view.
pub open spec fn token_view(t: Option<Token>) -> Option<Seq<char>> {
    match t {
        Some(x) => Some(x@),
        None => None,
    }
}

/// `reason` names the violation `maybe_error`.
pub open spec fn tags(reason: Option<BanKind>, maybe_error: Option<&TransactionError>) -> bool {
    match maybe_error {
        Some(TransactionError::ErrIncorrectNonce) => reason == Some(BanKind::IncorrectNonce),
        Some(TransactionError::MaxGas) => reason == Some(BanKind::MaxGas),
        Some(TransactionError::Revert(m)) => match reason {
            Some(BanKind::Revert(n)) => n@ == m@,
            _ => false,
        },
        _ => reason.is_none(),
    }
}

/// The ban reason that a violation gives, if any.
pub fn ban_reason(maybe_error: Option<&TransactionError>) -> (r: Option<BanKind>)
    ensures
        tags(r, maybe_error),
{
    match maybe_error {
        Some(TransactionError::ErrIncorrectNonce) => Some(BanKind::IncorrectNonce),
        Some(TransactionError::MaxGas) => Some(BanKind::MaxGas),
        Some(TransactionError::Revert(m)) => Some(BanKind::Revert(m.clone())),
        _ => None,
    }
}

/// The ban engine: active identities per axis, the ban list, and the decay clock.
#[derive(Debug)]
pub struct Banhammer {
    next_check: u128,
    user_clients: Table<ClientAddr, UserClient>,
    user_froms: Table<SenderAddr, UserFrom>,
    user_tokens: Table<Token, UserToken>,
    ban_list: BanList,
    config: Config,
}

impl Banhammer {
    pub closed spec fn active_clients(&self) -> Map<ClientAddr, UserClient> {
        self.user_clients.entries()
    }

    pub closed spec fn active_froms(&self) -> Map<Seq<u8>, UserFrom> {
        self.user_froms.entries()
    }

    pub closed spec fn active_tokens(&self) -> Map<Seq<char>, UserToken> {
        self.user_tokens.entries()
    }

    pub closed spec fn banned_clients(&self) -> Map<ClientAddr, UserClient> {
        self.ban_list.clients.entries()
    }

    pub closed spec fn banned_froms(&self) -> Map<Seq<u8>, UserFrom> {
        self.ban_list.froms.entries()
    }

    pub closed spec fn banned_tokens(&self) -> Map<Seq<char>, UserToken> {
        self.ban_list.tokens.entries()
    }

    pub closed spec fn settings(&self) -> Config {
        self.config
    }

    /// When the next decay is due, in nanoseconds since the clock's start.
    pub closed spec fn deadline(&self) -> u128 {
        self.next_check
    }

    /// Every table is well formed, each identity is active or banned but
    /// not both, no association list repeats an identity, and exactly the
    /// banned entries carry a reason.
    pub closed spec fn wf(&self) -> bool {
        &&& self.user_clients.wf()
        &&& self.user_froms.wf()
        &&& self.user_tokens.wf()
        &&& self.ban_list.clients.wf()
        &&& self.ban_list.froms.wf()
        &&& self.ban_list.tokens.wf()
        &&& forall|k: ClientAddr| #[trigger] self.active_clients().contains_key(k)
            ==> !self.banned_clients().contains_key(k) && self.active_clients()[k].distinct()
                && self.active_clients()[k].banned.is_none()
        &&& forall|k: Seq<u8>| #[trigger] self.active_froms().contains_key(k)
            ==> !self.banned_froms().contains_key(k) && self.active_froms()[k].distinct()
                && self.active_froms()[k].banned.is_none()
        &&& forall|k: Seq<char>| #[trigger] self.active_tokens().contains_key(k)
            ==> !self.banned_tokens().contains_key(k) && self.active_tokens()[k].distinct()
                && self.active_tokens()[k].banned.is_none()
        &&& forall|k: ClientAddr| #[trigger] self.banned_clients().contains_key(k)
            ==> self.banned_clients()[k].distinct() && self.banned_clients()[k].banned.is_some()
        &&& forall|k: Seq<u8>| #[trigger] self.banned_froms().contains_key(k)
            ==> self.banned_froms()[k].distinct() && self.banned_froms()[k].banned.is_some()
        &&& forall|k: Seq<char>| #[trigger] self.banned_tokens().contains_key(k)
            ==> self.banned_tokens()[k].distinct() && self.banned_tokens()[k].banned.is_some()
    }

    pub fn new(config: Config) -> (r: Banhammer)
        ensures
            r.wf(),
            r.settings() == config,
            r.deadline() == config.interval(),
            r.active_clients() == Map::<ClientAddr, UserClient>::empty(),
            r.active_froms() == Map::<Seq<u8>, UserFrom>::empty(),
            r.active_tokens() == Map::<Seq<char>, UserToken>::empty(),
            r.banned_clients() == Map::<ClientAddr, UserClient>::empty(),
            r.banned_froms() == Map::<Seq<u8>, UserFrom>::empty(),
            r.banned_tokens() == Map::<Seq<char>, UserToken>::empty(),
    {
        Banhammer {
            next_check: (config.timeframe as u128) * 1_000_000_000,
            user_clients: Table::new(),
            user_froms: Table::new(),
            user_tokens: Table::new(),
            ban_list: BanList { clients: Table::new(), tokens: Table::new(), froms: Table::new() },
            config,
        }
    }

    /// Runs the decay clock. `elapsed` is the time since the clock's start,
    /// in nanoseconds. Once it is past the deadline, the progress of every
    /// active client is cleared and the deadline moves on by one interval.
    pub fn tick(&mut self, elapsed: u128)
        requires
            old(self).wf(),
            elapsed > old(self).deadline() ==> old(self).deadline() + old(self).settings().interval() <= u128::MAX,
        ensures
            final(self).wf(),
            elapsed <= old(self).deadline() ==> *final(self) == *old(self),
            elapsed > old(self).deadline() ==> {
                &&& final(self).deadline() == old(self).deadline() + old(self).settings().interval()
                &&& final(self).active_clients().dom() == old(self).active_clients().dom()
                &&& forall|k: ClientAddr| #[trigger] final(self).active_clients().contains_key(k)
                    ==> final(self).active_clients()[k].decayed_from(&old(self).active_clients()[k])
                &&& final(self).active_froms() == old(self).active_froms()
                &&& final(self).active_tokens() == old(self).active_tokens()
                &&& final(self).banned_clients() == old(self).banned_clients()
                &&& final(self).banned_froms() == old(self).banned_froms()
                &&& final(self).banned_tokens() == old(self).banned_tokens()
                &&& final(self).settings() == old(self).settings()
            },
    {
        if elapsed > self.next_check {
            self.user_clients.decay_all();
            self.next_check = self.next_check + (self.config.timeframe as u128) * 1_000_000_000;
            proof {
                assert forall|k: ClientAddr| #[trigger] self.active_clients().contains_key(k)
                    implies self.active_clients()[k].distinct() by {
                    assert(old(self).active_clients().contains_key(k));
                }
            }
        }
    }
}

impl Banhammer {
    /// What the client axis holds for `c` before an event: its entry's
    /// contents, or those of a fresh entry.
    pub open spec fn client_progress(&self, c: ClientAddr) -> ProgressView {
        if self.active_clients().contains_key(c) {
            self.active_clients()[c].ban_progress@
        } else {
            ProgressView::zero()
        }
    }

    pub open spec fn client_froms(&self, c: ClientAddr) -> Seq<Seq<u8>> {
        if self.active_clients().contains_key(c) {
            views(self.active_clients()[c].froms@)
        } else {
            Seq::empty()
        }
    }

    pub open spec fn client_tokens(&self, c: ClientAddr) -> Seq<Seq<char>> {
        if self.active_clients().contains_key(c) {
            views(self.active_clients()[c].tokens@)
        } else {
            Seq::empty()
        }
    }

    pub open spec fn from_progress(&self, f: Seq<u8>) -> ProgressView {
        if self.active_froms().contains_key(f) {
            self.active_froms()[f].ban_progress@
        } else {
            ProgressView::zero()
        }
    }

    pub open spec fn from_clients(&self, f: Seq<u8>) -> Seq<ClientAddr> {
        if self.active_froms().contains_key(f) {
            views(self.active_froms()[f].clients@)
        } else {
            Seq::empty()
        }
    }

    pub open spec fn from_tokens(&self, f: Seq<u8>) -> Seq<Seq<char>> {
        if self.active_froms().contains_key(f) {
            views(self.active_froms()[f].tokens@)
        } else {
            Seq::empty()
        }
    }

    pub open spec fn token_progress(&self, t: Seq<char>) -> ProgressView {
        if self.active_tokens().contains_key(t) {
            self.active_tokens()[t].ban_progress@
        } else {
            ProgressView::zero()
        }
    }

    pub open spec fn token_clients(&self, t: Seq<char>) -> Seq<ClientAddr> {
        if self.active_tokens().contains_key(t) {
            views(self.active_tokens()[t].clients@)
        } else {
            Seq::empty()
        }
    }

    pub open spec fn token_froms(&self, t: Seq<char>) -> Seq<Seq<u8>> {
        if self.active_tokens().contains_key(t) {
            views(self.active_tokens()[t].froms@)
        } else {
            Seq::empty()
        }
    }

    /// The two engines hold the same client tables.
    pub open spec fn same_clients(&self, other: &Banhammer) -> bool {
        self.active_clients() == other.active_clients() && self.banned_clients() == other.banned_clients()
    }

    pub open spec fn same_froms(&self, other: &Banhammer) -> bool {
        self.active_froms() == other.active_froms() && self.banned_froms() == other.banned_froms()
    }

    pub open spec fn same_tokens(&self, other: &Banhammer) -> bool {
        self.active_tokens() == other.active_tokens() && self.banned_tokens() == other.banned_tokens()
    }

    pub open spec fn same_clock(&self, other: &Banhammer) -> bool {
        self.settings() == other.settings() && self.deadline() == other.deadline()
    }

    /// Records that `client` was seen with `from` and `maybe_token`.
    fn associate_with_user_client(&mut self, client: ClientAddr, from: SenderAddr, maybe_token: Option<Token>)
        requires
            old(self).wf(),
            !old(self).banned_clients().contains_key(client),
        ensures
            final(self).wf(),
            final(self).same_froms(old(self)),
            final(self).same_tokens(old(self)),
            final(self).same_clock(old(self)),
            final(self).banned_clients() == old(self).banned_clients(),
            final(self).active_clients().contains_key(client),
            final(self).active_clients().remove(client) == old(self).active_clients().remove(client),
            views(final(self).active_clients()[client].froms@) == with_new(old(self).client_froms(client), from@),
            views(final(self).active_clients()[client].tokens@)
                == with_maybe(old(self).client_tokens(client), token_view(maybe_token)),
            final(self).active_clients()[client].ban_progress@ == old(self).client_progress(client),
    {
        let ghost pre = *self;
        let mut user_client = match self.user_clients.remove(&client) {
            Some(u) => u,
            None => UserClient::new(),
        };
        assert(views(user_client.froms@) == pre.client_froms(client)) by {
            if !pre.active_clients().contains_key(client) {
                assert(views(user_client.froms@) =~= Seq::<Seq<u8>>::empty());
            }
        }
        assert(views(user_client.tokens@) == pre.client_tokens(client)) by {
            if !pre.active_clients().contains_key(client) {
                assert(views(user_client.tokens@) =~= Seq::<Seq<char>>::empty());
            }
        }
        proof {
            lemma_push_unique_distinct(views(user_client.froms@), from@);
        }
        push_unique(&mut user_client.froms, from);
        match maybe_token {
            Some(token) => {
                proof {
                    lemma_push_unique_distinct(views(user_client.tokens@), token@);
                }
                push_unique(&mut user_client.tokens, token);
            },
            None => {},
        }
        self.user_clients.insert_new(client, user_client);
        proof {
            assert(self.active_clients().remove(client) =~= pre.active_clients().remove(client));
        }
    }

    /// Records that `from` was seen with `client` and `maybe_token`.
    fn associate_with_user_from(&mut self, from: SenderAddr, client: ClientAddr, maybe_token: Option<Token>)
        requires
            old(self).wf(),
            !old(self).banned_froms().contains_key(from@),
        ensures
            final(self).wf(),
            final(self).same_clients(old(self)),
            final(self).same_tokens(old(self)),
            final(self).same_clock(old(self)),
            final(self).banned_froms() == old(self).banned_froms(),
            final(self).active_froms().contains_key(from@),
            final(self).active_froms().remove(from@) == old(self).active_froms().remove(from@),
            views(final(self).active_froms()[from@].clients@) == with_new(old(self).from_clients(from@), client@),
            views(final(self).active_froms()[from@].tokens@)
                == with_maybe(old(self).from_tokens(from@), token_view(maybe_token)),
            final(self).active_froms()[from@].ban_progress@ == old(self).from_progress(from@),
    {
        let ghost pre = *self;
        let mut user_from = match self.user_froms.remove(&from) {
            Some(u) => u,
            None => UserFrom::new(),
        };
        assert(views(user_from.clients@) == pre.from_clients(from@)) by {
            if !pre.active_froms().contains_key(from@) {
                assert(views(user_from.clients@) =~= Seq::<ClientAddr>::empty());
            }
        }
        assert(views(user_from.tokens@) == pre.from_tokens(from@)) by {
            if !pre.active_froms().contains_key(from@) {
                assert(views(user_from.tokens@) =~= Seq::<Seq<char>>::empty());
            }
        }
        proof {
            lemma_push_unique_distinct(views(user_from.clients@), client@);
        }
        push_unique(&mut user_from.clients, client);
        match maybe_token {
            Some(token) => {
                proof {
                    lemma_push_unique_distinct(views(user_from.tokens@), token@);
                }
                push_unique(&mut user_from.tokens, token);
            },
            None => {},
        }
        self.user_froms.insert_new(from, user_from);
        proof {
            assert(self.active_froms().remove(from@) =~= pre.active_froms().remove(from@));
        }
    }

    /// Records that `token` was seen with `client` and `from`.
    fn associate_with_user_token(&mut self, token: Token, client: ClientAddr, from: SenderAddr)
        requires
            old(self).wf(),
            !old(self).banned_tokens().contains_key(token@),
        ensures
            final(self).wf(),
            final(self).same_clients(old(self)),
            final(self).same_froms(old(self)),
            final(self).same_clock(old(self)),
            final(self).banned_tokens() == old(self).banned_tokens(),
            final(self).active_tokens().contains_key(token@),
            final(self).active_tokens().remove(token@) == old(self).active_tokens().remove(token@),
            views(final(self).active_tokens()[token@].clients@) == with_new(old(self).token_clients(token@), client@),
            views(final(self).active_tokens()[token@].froms@) == with_new(old(self).token_froms(token@), from@),
            final(self).active_tokens()[token@].ban_progress@ == old(self).token_progress(token@),
    {
        let ghost pre = *self;
        let ghost tv = token@;
        let mut user_token = match self.user_tokens.remove(&token) {
            Some(u) => u,
            None => UserToken::new(),
        };
        assert(views(user_token.clients@) == pre.token_clients(tv)) by {
            if !pre.active_tokens().contains_key(tv) {
                assert(views(user_token.clients@) =~= Seq::<ClientAddr>::empty());
            }
        }
        assert(views(user_token.froms@) == pre.token_froms(tv)) by {
            if !pre.active_tokens().contains_key(tv) {
                assert(views(user_token.froms@) =~= Seq::<Seq<u8>>::empty());
            }
        }
        proof {
            lemma_push_unique_distinct(views(user_token.clients@), client@);
            lemma_push_unique_distinct(views(user_token.froms@), from@);
        }
        push_unique(&mut user_token.clients, client);
        push_unique(&mut user_token.froms, from);
        self.user_tokens.insert_new(token, user_token);
        proof {
            assert(self.active_tokens().remove(tv) =~= pre.active_tokens().remove(tv));
        }
    }
}

impl Banhammer {
    /// Applies the violation of one event to each axis that is not banned,
    /// and says for each whether it is now to be banned.
    fn ban_progression(
        &mut self,
        client: &ClientAddr,
        from: &SenderAddr,
        token: Option<&Token>,
        maybe_error: Option<&TransactionError>,
    ) -> (r: (bool, bool, bool))
        requires
            old(self).wf(),
            old(self).banned_clients().contains_key(*client) || old(self).active_clients().contains_key(*client),
            old(self).banned_froms().contains_key(from@) || old(self).active_froms().contains_key(from@),
            token is Some ==> old(self).banned_tokens().contains_key(token->0@)
                || old(self).active_tokens().contains_key(token->0@),
        ensures
            final(self).wf(),
            final(self).same_clock(old(self)),
            final(self).banned_clients() == old(self).banned_clients(),
            final(self).banned_froms() == old(self).banned_froms(),
            final(self).banned_tokens() == old(self).banned_tokens(),
            old(self).banned_clients().contains_key(*client) ==> !r.0 && final(self).active_clients() == old(self).active_clients(),
            !old(self).banned_clients().contains_key(*client) ==> {
                let (u0, u1) = (old(self).active_clients()[*client], final(self).active_clients()[*client]);
                &&& final(self).active_clients().contains_key(*client)
                &&& final(self).active_clients().remove(*client) == old(self).active_clients().remove(*client)
                &&& u1.ban_progress@ == progress_after(u0.ban_progress@, maybe_error)
                &&& u1.tokens == u0.tokens && u1.froms == u0.froms && u1.banned == u0.banned
                &&& r.0 == should_ban(u1.ban_progress@, old(self).settings(), token is Some, maybe_error)
            },
            old(self).banned_froms().contains_key(from@) ==> !r.1 && final(self).active_froms() == old(self).active_froms(),
            !old(self).banned_froms().contains_key(from@) ==> {
                let (u0, u1) = (old(self).active_froms()[from@], final(self).active_froms()[from@]);
                &&& final(self).active_froms().contains_key(from@)
                &&& final(self).active_froms().remove(from@) == old(self).active_froms().remove(from@)
                &&& u1.ban_progress@ == progress_after(u0.ban_progress@, maybe_error)
                &&& u1.clients == u0.clients && u1.tokens == u0.tokens && u1.banned == u0.banned
                &&& r.1 == should_ban(u1.ban_progress@, old(self).settings(), token is Some, maybe_error)
            },
            (token is None || old(self).banned_tokens().contains_key(token->0@))
                ==> !r.2 && final(self).active_tokens() == old(self).active_tokens(),
            (token is Some && !old(self).banned_tokens().contains_key(token->0@)) ==> {
                let t = token->0@;
                let (u0, u1) = (old(self).active_tokens()[t], final(self).active_tokens()[t]);
                &&& final(self).active_tokens().contains_key(t)
                &&& final(self).active_tokens().remove(t) == old(self).active_tokens().remove(t)
                &&& u1.ban_progress@ == progress_after(u0.ban_progress@, maybe_error)
                &&& u1.clients == u0.clients && u1.froms == u0.froms && u1.banned == u0.banned
                &&& r.2 == should_ban(u1.ban_progress@, old(self).settings(), true, maybe_error)
            },
    {
        let ghost pre = *self;
        let is_client_banned = if !self.ban_list.clients.contains_key(client) {
            match self.user_clients.remove(client) {
                Some(mut user_client) => {
                    let b = check_error_ban(&mut user_client.ban_progress, &self.config, token, maybe_error);
                    self.user_clients.insert_new(*client, user_client);
                    assert(self.active_clients().remove(*client) =~= pre.active_clients().remove(*client));
                    b
                },
                None => {
                    assert(false);
                    false
                },
            }
        } else {
            false
        };
        let ghost mid1 = *self;
        assert(mid1.wf()) by {
            assert forall|k: ClientAddr| #[trigger] mid1.active_clients().contains_key(k)
                implies mid1.active_clients()[k].distinct() && mid1.active_clients()[k].banned.is_none() by {
                assert(pre.active_clients().contains_key(k));
            }
        }
        let is_from_banned = if !self.ban_list.froms.contains_key(from) {
            match self.user_froms.remove(from) {
                Some(mut user_from) => {
                    let b = check_error_ban(&mut user_from.ban_progress, &self.config, token, maybe_error);
                    self.user_froms.insert_new(*from, user_from);
                    assert(self.active_froms().remove(from@) =~= pre.active_froms().remove(from@));
                    b
                },
                None => {
                    assert(false);
                    false
                },
            }
        } else {
            false
        };
        let ghost mid2 = *self;
        assert(mid2.wf()) by {
            assert forall|k: Seq<u8>| #[trigger] mid2.active_froms().contains_key(k)
                implies mid2.active_froms()[k].distinct() && mid2.active_froms()[k].banned.is_none() by {
                assert(mid1.active_froms().contains_key(k));
            }
        }
        let is_token_banned = match token {
            Some(t) => {
                if !self.ban_list.tokens.contains_key(t) {
                    match self.user_tokens.remove(t) {
                        Some(mut user_token) => {
                            let b = check_error_ban(&mut user_token.ban_progress, &self.config, Some(t), maybe_error);
                            self.user_tokens.insert_new(t.duplicate(), user_token);
                            assert(self.active_tokens().remove(t@) =~= pre.active_tokens().remove(t@));
                            b
                        },
                        None => {
                            assert(false);
                            false
                        },
                    }
                } else {
                    false
                }
            },
            None => false,
        };
        assert(self.wf()) by {
            assert forall|k: Seq<char>| #[trigger] self.active_tokens().contains_key(k)
                implies self.active_tokens()[k].distinct() && self.active_tokens()[k].banned.is_none() by {
                assert(mid2.active_tokens().contains_key(k));
            }
        }
        (is_client_banned, is_from_banned, is_token_banned)
    }
}

fn clone_token(t: &Option<Token>) -> (r: Option<Token>)
    ensures
        token_view(r) == token_view(*t),
{
    match t {
        Some(x) => Some(x.duplicate()),
        None => None,
    }
}

impl Banhammer {
    /// The event bans its client: the client is active and its progress,
    /// once the violation is recorded, meets the threshold.
    pub open spec fn bans_client(&self, input: RelayerInput) -> bool {
        let e = error_ref(&input.error);
        &&& !self.banned_clients().contains_key(input.client)
        &&& should_ban(progress_after(self.client_progress(input.client), e), self.settings(), input.token is Some, e)
    }

    /// The event bans its sending account.
    pub open spec fn bans_from(&self, input: RelayerInput) -> bool {
        let e = error_ref(&input.error);
        &&& !self.banned_froms().contains_key(input.from@)
        &&& should_ban(progress_after(self.from_progress(input.from@), e), self.settings(), input.token is Some, e)
    }

    /// The event carries a token and bans it.
    pub open spec fn bans_token(&self, input: RelayerInput) -> bool {
        let e = error_ref(&input.error);
        &&& input.token is Some
        &&& !self.banned_tokens().contains_key(input.token->0@)
        &&& should_ban(progress_after(self.token_progress(input.token->0@), e), self.settings(), true, e)
    }

    /// How the client axis of `after` follows from `self` and the event.
    pub open spec fn client_step(&self, after: &Banhammer, input: RelayerInput) -> bool {
        let c = input.client;
        let e = error_ref(&input.error);
        let b = self.bans_client(input);
        let u = if b { after.banned_clients()[c] } else { after.active_clients()[c] };
        if self.banned_clients().contains_key(c) {
            after.same_clients(self)
        } else {
            &&& after.active_clients().contains_key(c) == !b
            &&& after.active_clients().remove(c) == self.active_clients().remove(c)
            &&& after.banned_clients().contains_key(c) == b
            &&& after.banned_clients().remove(c) == self.banned_clients()
            &&& views(u.froms@) == with_new(self.client_froms(c), input.from@)
            &&& views(u.tokens@) == with_maybe(self.client_tokens(c), token_view(input.token))
            &&& u.ban_progress@ == progress_after(self.client_progress(c), e)
            &&& if b { tags(u.banned, e) } else { u.banned is None }
        }
    }

    /// How the sender axis of `after` follows from `self` and the event.
    pub open spec fn from_step(&self, after: &Banhammer, input: RelayerInput) -> bool {
        let f = input.from@;
        let e = error_ref(&input.error);
        let b = self.bans_from(input);
        let u = if b { after.banned_froms()[f] } else { after.active_froms()[f] };
        if self.banned_froms().contains_key(f) {
            after.same_froms(self)
        } else {
            &&& after.active_froms().contains_key(f) == !b
            &&& after.active_froms().remove(f) == self.active_froms().remove(f)
            &&& after.banned_froms().contains_key(f) == b
            &&& after.banned_froms().remove(f) == self.banned_froms()
            &&& views(u.clients@) == with_new(self.from_clients(f), input.client)
            &&& views(u.tokens@) == with_maybe(self.from_tokens(f), token_view(input.token))
            &&& u.ban_progress@ == progress_after(self.from_progress(f), e)
            &&& if b { tags(u.banned, e) } else { u.banned is None }
        }
    }

    /// How the token axis of `after` follows from `self` and the event.
    pub open spec fn token_step(&self, after: &Banhammer, input: RelayerInput) -> bool {
        let t = input.token->0@;
        let e = error_ref(&input.error);
        let b = self.bans_token(input);
        let u = if b { after.banned_tokens()[t] } else { after.active_tokens()[t] };
        if input.token is None || self.banned_tokens().contains_key(t) {
            after.same_tokens(self)
        } else {
            &&& after.active_tokens().contains_key(t) == !b
            &&& after.active_tokens().remove(t) == self.active_tokens().remove(t)
            &&& after.banned_tokens().contains_key(t) == b
            &&& after.banned_tokens().remove(t) == self.banned_tokens()
            &&& views(u.clients@) == with_new(self.token_clients(t), input.client)
            &&& views(u.froms@) == with_new(self.token_froms(t), input.from@)
            &&& u.ban_progress@ == progress_after(self.token_progress(t), e)
            &&& if b { tags(u.banned, e) } else { u.banned is None }
        }
    }

    /// Takes in one event: records its associations on every axis that is
    /// not banned, applies its violation, and moves each axis that crosses
    /// its threshold to the ban list. Returns which of the client, the
    /// sender and the token this event banned.
    pub fn read_input(&mut self, input: &RelayerInput) -> (r: (bool, bool, bool))
        requires
            old(self).wf(),
        ensures
            final(self).wf(),
            final(self).same_clock(old(self)),
            old(self).client_step(final(self), *input),
            old(self).from_step(final(self), *input),
            old(self).token_step(final(self), *input),
            r == (old(self).bans_client(*input), old(self).bans_from(*input), old(self).bans_token(*input)),
    {
        let maybe_error: Option<&TransactionError> = match &input.error {
            Some(e) => Some(e),
            None => None,
        };
        let client = input.client;
        let from = input.from;
        let ghost s0 = *self;
        if !self.ban_list.clients.contains_key(&client) {
            self.associate_with_user_client(client, from, clone_token(&input.token));
        }
        let ghost s1 = *self;
        if !self.ban_list.froms.contains_key(&from) {
            self.associate_with_user_from(from, client, clone_token(&input.token));
        }
        let ghost s2 = *self;
        match &input.token {
            Some(t) => {
                if !self.ban_list.tokens.contains_key(t) {
                    self.associate_with_user_token(t.duplicate(), client, from);
                }
            },
            None => {},
        }
        let ghost s3 = *self;
        let (is_client_banned, is_from_banned, is_token_banned) = self.ban_progression(
            &client,
            &from,
            input.token.as_ref(),
            maybe_error,
        );
        let ghost s4 = *self;
        if is_client_banned {
            match self.user_clients.remove(&client) {
                Some(mut user_client) => {
                    user_client.banned = ban_reason(maybe_error);
                    self.ban_list.clients.insert_new(client, user_client);
                },
                None => {
                    assert(false);
                },
            }
        }
        let ghost s5 = *self;
        if is_from_banned {
            match self.user_froms.remove(&from) {
                Some(mut user_from) => {
                    user_from.banned = ban_reason(maybe_error);
                    self.ban_list.froms.insert_new(from, user_from);
                },
                None => {
                    assert(false);
                },
            }
        }
        let ghost s6 = *self;
        if is_token_banned {
            match &input.token {
                Some(t) => {
                    match self.user_tokens.remove(t) {
                        Some(mut user_token) => {
                            user_token.banned = ban_reason(maybe_error);
                            self.ban_list.tokens.insert_new(t.duplicate(), user_token);
                        },
                        None => {
                            assert(false);
                        },
                    }
                },
                None => {
                    assert(false);
                },
            }
        }
        proof {
            let c = client;
            let f = from@;
            assert(maybe_error == error_ref(&input.error));
            if !s0.banned_clients().contains_key(c) {
                assert(s5.active_clients().remove(c) =~= s4.active_clients().remove(c));
                if is_client_banned {
                    assert(s5.banned_clients().remove(c) =~= s0.banned_clients());
                } else {
                    assert(s5.banned_clients().remove(c) =~= s0.banned_clients());
                }
            }
            if !s0.banned_froms().contains_key(f) {
                assert(s6.active_froms().remove(f) =~= s5.active_froms().remove(f));
                if is_from_banned {
                    assert(s6.banned_froms().remove(f) =~= s0.banned_froms());
                } else {
                    assert(s6.banned_froms().remove(f) =~= s0.banned_froms());
                }
            }
        }
        proof {
            let c = client;
            let f = from@;
            assert(maybe_error == error_ref(&input.error));
            if !s0.banned_clients().contains_key(c) {
                assert(s5.active_clients().remove(c) =~= s4.active_clients().remove(c));
                if is_client_banned {
                    assert(s5.banned_clients().remove(c) =~= s0.banned_clients());
                } else {
                    assert(s5.banned_clients().remove(c) =~= s0.banned_clients());
                }
            }
            if !s0.banned_froms().contains_key(f) {
                assert(s6.active_froms().remove(f) =~= s5.active_froms().remove(f));
                if is_from_banned {
                    assert(s6.banned_froms().remove(f) =~= s0.banned_froms());
                } else {
                    assert(s6.banned_froms().remove(f) =~= s0.banned_froms());
                }
            }
            if input.token is Some && !s0.banned_tokens().contains_key(input.token->0@) {
                let t = input.token->0@;
                assert(self.active_tokens().remove(t) =~= s6.active_tokens().remove(t));
                assert(self.banned_tokens().remove(t) =~= s0.banned_tokens());
            }
        }
        (is_client_banned, is_from_banned, is_token_banned)
    }
}

impl Banhammer {
    /// The identities banned so far.
    pub fn ban_list(&self) -> (r: &BanList)
        requires
            self.wf(),
        ensures
            r.clients.wf() && r.froms.wf() && r.tokens.wf(),
            r.clients.entries() == self.banned_clients(),
            r.froms.entries() == self.banned_froms(),
            r.tokens.entries() == self.banned_tokens(),
    {
        &self.ban_list
    }

    /// The active entry of a client, if it has one.
    pub fn user_client(&self, client: &ClientAddr) -> (r: Option<&UserClient>)
        requires
            self.wf(),
        ensures
            match r {
                Some(u) => self.active_clients().contains_key(*client) && *u == self.active_clients()[*client],
                None => !self.active_clients().contains_key(*client),
            },
    {
        self.user_clients.get(client)
    }

    /// The active entry of a sending account, if it has one.
    pub fn user_from(&self, from: &SenderAddr) -> (r: Option<&UserFrom>)
        requires
            self.wf(),
        ensures
            match r {
                Some(u) => self.active_froms().contains_key(from@) && *u == self.active_froms()[from@],
                None => !self.active_froms().contains_key(from@),
            },
    {
        self.user_froms.get(from)
    }

    /// The active entry of a token, if it has one.
    pub fn user_token(&self, token: &Token) -> (r: Option<&UserToken>)
        requires
            self.wf(),
        ensures
            match r {
                Some(u) => self.active_tokens().contains_key(token@) && *u == self.active_tokens()[token@],
                None => !self.active_tokens().contains_key(token@),
            },
    {
        self.user_tokens.get(token)
    }

    /// When the next decay is due, in nanoseconds since the clock's start.
    pub fn next_check(&self) -> (r: u128)
        ensures
            r == self.deadline(),
    {
        self.next_check
    }

    /// The interval by which each decay moves the deadline, in nanoseconds.
    pub fn decay_interval(&self) -> (r: u128)
        ensures
            r == self.settings().interval(),
    {
        (self.config.timeframe as u128) * 1_000_000_000
    }
}

/// No association list of any entry, active or banned, names an identity
/// twice. Every engine is built by `new` and changed only by `read_input`
/// and `tick`, which all keep `wf`, so this holds after any sequence of
/// events.
pub proof fn lemma_associations_distinct(h: &Banhammer)
    requires
        h.wf(),
    ensures
        forall|k: ClientAddr| #[trigger] h.active_clients().contains_key(k) ==> h.active_clients()[k].distinct(),
        forall|k: Seq<u8>| #[trigger] h.active_froms().contains_key(k) ==> h.active_froms()[k].distinct(),
        forall|k: Seq<char>| #[trigger] h.active_tokens().contains_key(k) ==> h.active_tokens()[k].distinct(),
        forall|k: ClientAddr| #[trigger] h.banned_clients().contains_key(k) ==> h.banned_clients()[k].distinct(),
        forall|k: Seq<u8>| #[trigger] h.banned_froms().contains_key(k) ==> h.banned_froms()[k].distinct(),
        forall|k: Seq<char>| #[trigger] h.banned_tokens().contains_key(k) ==> h.banned_tokens()[k].distinct(),
{
}

/// An identity is never active and banned at once.
pub proof fn lemma_active_or_banned(h: &Banhammer)
    requires
        h.wf(),
    ensures
        forall|k: ClientAddr| #[trigger] h.active_clients().contains_key(k) ==> !h.banned_clients().contains_key(k),
        forall|k: Seq<u8>| #[trigger] h.active_froms().contains_key(k) ==> !h.banned_froms().contains_key(k),
        forall|k: Seq<char>| #[trigger] h.active_tokens().contains_key(k) ==> !h.banned_tokens().contains_key(k),
{
}

/// An event moves an axis that was not banned to the ban list exactly when
/// its progress, as recorded for this event, meets the threshold of the
/// violation; otherwise the identity stays active with that progress.
pub proof fn lemma_ban_iff_threshold(before: &Banhammer, after: &Banhammer, input: RelayerInput)
    requires
        before.wf(),
        before.client_step(after, input),
        before.from_step(after, input),
        before.token_step(after, input),
        before.settings() == after.settings(),
    ensures
        !before.banned_clients().contains_key(input.client) ==> {
            let b = after.banned_clients().contains_key(input.client);
            let u = if b { after.banned_clients()[input.client] } else { after.active_clients()[input.client] };
            &&& b == should_ban(u.ban_progress@, after.settings(), input.token is Some, error_ref(&input.error))
            &&& b != after.active_clients().contains_key(input.client)
        },
        !before.banned_froms().contains_key(input.from@) ==> {
            let b = after.banned_froms().contains_key(input.from@);
            let u = if b { after.banned_froms()[input.from@] } else { after.active_froms()[input.from@] };
            &&& b == should_ban(u.ban_progress@, after.settings(), input.token is Some, error_ref(&input.error))
            &&& b != after.active_froms().contains_key(input.from@)
        },
        input.token is Some && !before.banned_tokens().contains_key(input.token->0@) ==> {
            let t = input.token->0@;
            let b = after.banned_tokens().contains_key(t);
            let u = if b { after.banned_tokens()[t] } else { after.active_tokens()[t] };
            &&& b == should_ban(u.ban_progress@, after.settings(), true, error_ref(&input.error))
            &&& b != after.active_tokens().contains_key(t)
        },
{
}

/// A banned identity stays banned with its entry unchanged, whatever the
/// event, and the event reports no new ban for it.
pub proof fn lemma_banned_frozen(before: &Banhammer, after: &Banhammer, input: RelayerInput)
    requires
        before.wf(),
        before.client_step(after, input),
        before.from_step(after, input),
        before.token_step(after, input),
    ensures
        forall|k: ClientAddr| #[trigger] before.banned_clients().contains_key(k)
            ==> after.banned_clients().contains_key(k) && after.banned_clients()[k] == before.banned_clients()[k],
        forall|k: Seq<u8>| #[trigger] before.banned_froms().contains_key(k)
            ==> after.banned_froms().contains_key(k) && after.banned_froms()[k] == before.banned_froms()[k],
        forall|k: Seq<char>| #[trigger] before.banned_tokens().contains_key(k)
            ==> after.banned_tokens().contains_key(k) && after.banned_tokens()[k] == before.banned_tokens()[k],
        before.banned_clients().contains_key(input.client) ==> !before.bans_client(input),
        before.banned_froms().contains_key(input.from@) ==> !before.bans_from(input),
        input.token is Some && before.banned_tokens().contains_key(input.token->0@) ==> !before.bans_token(input),
{
    assert forall|k: ClientAddr| #[trigger] before.banned_clients().contains_key(k)
        implies after.banned_clients().contains_key(k) && after.banned_clients()[k] == before.banned_clients()[k] by {
        if k != input.client && !before.banned_clients().contains_key(input.client) {
            assert(after.banned_clients().remove(input.client).contains_key(k));
        }
    }
    assert forall|k: Seq<u8>| #[trigger] before.banned_froms().contains_key(k)
        implies after.banned_froms().contains_key(k) && after.banned_froms()[k] == before.banned_froms()[k] by {
        if k != input.from@ && !before.banned_froms().contains_key(input.from@) {
            assert(after.banned_froms().remove(input.from@).contains_key(k));
        }
    }
    assert forall|k: Seq<char>| #[trigger] before.banned_tokens().contains_key(k)
        implies after.banned_tokens().contains_key(k) && after.banned_tokens()[k] == before.banned_tokens()[k] by {
        if input.token is Some && k != input.token->0@ && !before.banned_tokens().contains_key(input.token->0@) {
            assert(after.banned_tokens().remove(input.token->0@).contains_key(k));
        }
    }
}

} // verus!
