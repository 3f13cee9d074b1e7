use banhammer::{
    ban_reason, check_error_ban, threshold, BanKind, BanProgress, Banhammer, ClientAddr, Config, Identity,
    RelayerInput, SenderAddr, Table, Token, TransactionError,
};

const SECOND: u128 = 1_000_000_000;

fn client(n: u32) -> ClientAddr {
    ClientAddr::V4(n)
}

fn sender(b: u8) -> SenderAddr {
    SenderAddr { bytes: [b; 20] }
}

fn token(s: &str) -> Token {
    Token { text: s.to_string() }
}

fn event(c: u32, f: u8, t: Option<&str>, error: Option<TransactionError>) -> RelayerInput {
    RelayerInput { client: client(c), from: sender(f), token: t.map(token), error }
}

fn config(nonce: u32, max_gas: u32, revert: u32, multiplier: u32) -> Config {
    Config::new(60, nonce, max_gas, revert, multiplier)
}

fn fresh_progress() -> BanProgress {
    BanProgress::new()
}

#[test]
fn third_incorrect_nonce_bans_client() {
    let mut hammer = Banhammer::new(config(3, 10, 10, 2));
    let nonce = Some(TransactionError::ErrIncorrectNonce);
    assert_eq!(hammer.read_input(&event(1, 7, None, nonce.clone())), (false, false, false));
    assert_eq!(hammer.read_input(&event(1, 7, None, nonce.clone())), (false, false, false));
    assert!(hammer.user_client(&client(1)).is_some());
    assert_eq!(hammer.read_input(&event(1, 7, None, nonce)), (true, true, false));
    assert!(hammer.user_client(&client(1)).is_none());
    let banned = hammer.ban_list().clients.get(&client(1)).unwrap();
    assert_eq!(banned.banned, Some(BanKind::IncorrectNonce));
    assert_eq!(banned.ban_progress.incorrect_nonce, 3);
    assert!(hammer.user_from(&sender(7)).is_none());
    assert!(hammer.ban_list().froms.contains_key(&sender(7)));
}

#[test]
fn token_doubles_the_threshold() {
    let mut hammer = Banhammer::new(config(3, 10, 10, 2));
    for _ in 0..5 {
        let r = hammer.read_input(&event(1, 7, Some("tok"), Some(TransactionError::ErrIncorrectNonce)));
        assert_eq!(r, (false, false, false));
    }
    assert!(hammer.user_token(&token("tok")).is_some());
    let r = hammer.read_input(&event(1, 7, Some("tok"), Some(TransactionError::ErrIncorrectNonce)));
    assert_eq!(r, (true, true, true));
    assert!(hammer.user_token(&token("tok")).is_none());
    let banned = hammer.ban_list().tokens.get(&token("tok")).unwrap();
    assert_eq!(banned.banned, Some(BanKind::IncorrectNonce));
    assert_eq!(banned.ban_progress.incorrect_nonce, 6);
    assert!(hammer.ban_list().clients.contains_key(&client(1)));
}

#[test]
fn effective_threshold_values() {
    assert_eq!(threshold(3, 2, true), 6);
    assert_eq!(threshold(3, 2, false), 3);
    assert_eq!(threshold(0, 9, true), 0);
    assert_eq!(threshold(u32::MAX, u32::MAX, true), (u32::MAX as u64) * (u32::MAX as u64));
}

#[test]
fn tick_before_interval_is_a_no_op() {
    let mut hammer = Banhammer::new(config(5, 5, 5, 1));
    hammer.read_input(&event(1, 7, None, Some(TransactionError::ErrIncorrectNonce)));
    assert_eq!(hammer.next_check(), 60 * SECOND);
    hammer.tick(30 * SECOND);
    assert_eq!(hammer.user_client(&client(1)).unwrap().ban_progress.incorrect_nonce, 1);
    assert_eq!(hammer.next_check(), 60 * SECOND);
    hammer.tick(60 * SECOND);
    assert_eq!(hammer.user_client(&client(1)).unwrap().ban_progress.incorrect_nonce, 1);
    assert_eq!(hammer.next_check(), 60 * SECOND);
}

#[test]
fn tick_after_interval_resets_clients_only() {
    let mut hammer = Banhammer::new(config(5, 5, 5, 1));
    hammer.read_input(&event(1, 7, Some("tok"), Some(TransactionError::ErrIncorrectNonce)));
    hammer.read_input(&event(1, 7, Some("tok"), Some(TransactionError::Revert("out of gas".to_string()))));
    hammer.tick(61 * SECOND);
    let c = hammer.user_client(&client(1)).unwrap();
    assert_eq!(c.ban_progress, fresh_progress());
    assert_eq!(c.froms, vec![sender(7)]);
    assert_eq!(hammer.user_from(&sender(7)).unwrap().ban_progress.incorrect_nonce, 1);
    assert_eq!(hammer.user_token(&token("tok")).unwrap().ban_progress.revert.len(), 1);
    assert_eq!(hammer.next_check(), 120 * SECOND);
}

#[test]
fn tick_moves_deadline_by_one_interval() {
    let mut hammer = Banhammer::new(config(5, 5, 5, 1));
    hammer.tick(500 * SECOND);
    assert_eq!(hammer.next_check(), 120 * SECOND);
    hammer.tick(500 * SECOND);
    assert_eq!(hammer.next_check(), 180 * SECOND);
    assert_eq!(hammer.decay_interval(), 60 * SECOND);
}

#[test]
fn revert_is_judged_by_max_gas_count() {
    let cfg = config(10, 10, 1, 1);
    let mut p = fresh_progress();
    let revert = TransactionError::Revert("boom".to_string());
    assert!(!check_error_ban(&mut p, &cfg, None, Some(&revert)));
    assert_eq!(p.revert, vec!["boom".to_string()]);
    assert_eq!(p.max_gas, 0);
    assert!(!check_error_ban(&mut p, &cfg, None, Some(&TransactionError::MaxGas)));
    assert_eq!(p.max_gas, 1);
    assert!(check_error_ban(&mut p, &cfg, None, Some(&revert)));
    assert_eq!(p.revert.len(), 2);
}

#[test]
fn max_gas_threshold_with_token() {
    let cfg = config(10, 2, 10, 3);
    let tok = token("t");
    let mut p = fresh_progress();
    for _ in 0..5 {
        assert!(!check_error_ban(&mut p, &cfg, Some(&tok), Some(&TransactionError::MaxGas)));
    }
    assert!(check_error_ban(&mut p, &cfg, Some(&tok), Some(&TransactionError::MaxGas)));
    assert_eq!(p.max_gas, 6);
}

#[test]
fn relayer_errors_and_no_error_change_nothing() {
    let cfg = config(0, 0, 0, 0);
    let mut p = fresh_progress();
    assert!(!check_error_ban(&mut p, &cfg, None, Some(&TransactionError::Relayer("busy".to_string()))));
    assert!(!check_error_ban(&mut p, &cfg, None, None));
    assert_eq!(p, fresh_progress());
}

#[test]
fn zero_threshold_bans_on_first_violation() {
    let cfg = config(0, 10, 10, 1);
    let mut p = fresh_progress();
    assert!(check_error_ban(&mut p, &cfg, None, Some(&TransactionError::ErrIncorrectNonce)));
    assert_eq!(p.incorrect_nonce, 1);
}

#[test]
fn counter_saturates_at_the_top() {
    let cfg = Config::new(60, u32::MAX, 10, 10, 2);
    let mut p = fresh_progress();
    p.incorrect_nonce = u32::MAX;
    let tok = token("t");
    assert!(!check_error_ban(&mut p, &cfg, Some(&tok), Some(&TransactionError::ErrIncorrectNonce)));
    assert_eq!(p.incorrect_nonce, u32::MAX);
}

#[test]
fn associations_are_not_repeated() {
    let mut hammer = Banhammer::new(config(10, 10, 10, 1));
    hammer.read_input(&event(1, 7, Some("a"), None));
    hammer.read_input(&event(1, 7, Some("a"), None));
    hammer.read_input(&event(1, 8, Some("b"), None));
    hammer.read_input(&event(2, 7, None, None));
    let c = hammer.user_client(&client(1)).unwrap();
    assert_eq!(c.froms, vec![sender(7), sender(8)]);
    assert_eq!(c.tokens, vec![token("a"), token("b")]);
    let f = hammer.user_from(&sender(7)).unwrap();
    assert_eq!(f.clients, vec![client(1), client(2)]);
    assert_eq!(f.tokens, vec![token("a")]);
    let t = hammer.user_token(&token("a")).unwrap();
    assert_eq!(t.clients, vec![client(1)]);
    assert_eq!(t.froms, vec![sender(7)]);
    assert_eq!(c.ban_progress, fresh_progress());
}

#[test]
fn no_token_leaves_token_axis_empty() {
    let mut hammer = Banhammer::new(config(1, 1, 1, 1));
    let r = hammer.read_input(&event(1, 7, None, Some(TransactionError::MaxGas)));
    assert_eq!(r, (true, true, false));
    assert_eq!(hammer.ban_list().tokens.len(), 0);
    assert_eq!(hammer.ban_list().clients.get(&client(1)).unwrap().banned, Some(BanKind::MaxGas));
}

#[test]
fn banned_identity_stays_frozen() {
    let mut hammer = Banhammer::new(config(1, 10, 10, 1));
    hammer.read_input(&event(1, 7, None, Some(TransactionError::ErrIncorrectNonce)));
    let frozen = hammer.ban_list().clients.get(&client(1)).unwrap().clone();
    let r = hammer.read_input(&event(1, 8, Some("x"), Some(TransactionError::ErrIncorrectNonce)));
    assert_eq!(r, (false, true, true));
    assert_eq!(hammer.ban_list().clients.get(&client(1)).unwrap(), &frozen);
    assert!(hammer.user_client(&client(1)).is_none());
    hammer.tick(61 * SECOND);
    assert_eq!(hammer.ban_list().clients.get(&client(1)).unwrap(), &frozen);
    assert_eq!(frozen.froms, vec![sender(7)]);
}

#[test]
fn revert_ban_carries_its_message() {
    let mut hammer = Banhammer::new(config(10, 10, 0, 1));
    let r = hammer.read_input(&event(3, 9, None, Some(TransactionError::Revert("nope".to_string()))));
    assert_eq!(r, (true, true, false));
    let banned = hammer.ban_list().froms.get(&sender(9)).unwrap();
    assert_eq!(banned.banned, Some(BanKind::Revert("nope".to_string())));
    assert_eq!(banned.ban_progress.revert, vec!["nope".to_string()]);
}

#[test]
fn reasons_for_each_violation() {
    assert_eq!(ban_reason(Some(&TransactionError::ErrIncorrectNonce)), Some(BanKind::IncorrectNonce));
    assert_eq!(ban_reason(Some(&TransactionError::MaxGas)), Some(BanKind::MaxGas));
    assert_eq!(ban_reason(Some(&TransactionError::Revert("r".to_string()))), Some(BanKind::Revert("r".to_string())));
    assert_eq!(ban_reason(Some(&TransactionError::Relayer("r".to_string()))), None);
    assert_eq!(ban_reason(None), None);
}

#[test]
fn identities_compare_by_value() {
    let mut a = sender(1);
    let b = sender(1);
    assert!(a.same(&b));
    a.bytes[19] = 2;
    assert!(!a.same(&b));
    assert!(token("x").same(&token("x").duplicate()));
    assert!(!token("x").same(&token("y")));
    assert!(!ClientAddr::V4(1).same(&ClientAddr::V6(1)));
}

#[test]
fn table_insert_get_remove() {
    let mut t: Table<Token, u32> = Table::new();
    t.insert_new(token("a"), 1);
    t.insert_new(token("b"), 2);
    assert_eq!(t.len(), 2);
    assert_eq!(t.get(&token("b")), Some(&2));
    assert_eq!(t.remove(&token("a")), Some(1));
    assert_eq!(t.remove(&token("a")), None);
    assert!(!t.contains_key(&token("a")));
    assert_eq!(t.get(&token("b")), Some(&2));
    assert_eq!(t.len(), 1);
}
