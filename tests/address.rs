use ore_pool_server::address::{member_pda, to_member_accounts, MEMBER_SEED};
use solana_pubkey::Pubkey;

fn expected(authority: [u8; 32], pool: [u8; 32], program: [u8; 32]) -> [u8; 32] {
    let program = Pubkey::new_from_array(program);
    Pubkey::find_program_address(&[b"member", &authority, &pool], &program).0.to_bytes()
}

#[test]
fn member_seed_is_member() {
    assert_eq!(&MEMBER_SEED, b"member");
}

#[test]
fn member_account_is_program_derived() {
    let (a, p, g) = ([1u8; 32], [2u8; 32], [3u8; 32]);
    let r = member_pda(&a, &p, &g).unwrap();
    assert_eq!(r, expected(a, p, g));
    assert_ne!(r, a);
}

#[test]
fn attribution_readdressed_in_order() {
    let (p, g) = ([2u8; 32], [3u8; 32]);
    let entries = vec![([7u8; 32], 10u64), ([8u8; 32], 0), ([7u8; 32], 5)];
    let out = to_member_accounts(&entries, &p, &g).unwrap();
    assert_eq!(
        out,
        vec![(expected([7u8; 32], p, g), 10), (expected([8u8; 32], p, g), 0), (expected([7u8; 32], p, g), 5)]
    );
    assert!(to_member_accounts(&vec![], &p, &g).unwrap().is_empty());
}
