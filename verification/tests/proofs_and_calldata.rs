use alloy_primitives::keccak256;
use privacy_providers::groth16::{proof_to_solidity_inputs, u256_to_decimal, G1Affine, G2Affine, Proof, U256};
use privacy_providers::pool::Pool;
use privacy_providers::pools::Eth1Pool;
use privacy_providers::primitives::{hex_prefixed, Address, B256};
use privacy_providers::provider::{
    call_with_word, call_without_arguments, decode_bool_answer, TornadoProviderError, deposit_calldata, get_last_root_calldata, is_known_root_calldata, root_verdict, withdraw_calldata,
    Indexer, IndexerState, TornadoProvider, TornadoProviderState, VerifierError,
};
use ruint::aliases::U256 as RU256;

fn u256(decimal: &str) -> U256 {
    let v = RU256::from_str_radix(decimal, 10).unwrap();
    U256::from_limbs(v.into_limbs())
}

fn sample_proof() -> Proof {
    Proof {
        a: G1Affine {
            x: u256("13266136784835640332844746266198608263901891282482609564079887369169768624014"),
            y: u256("17042632590340990663614784043794282016230679095846282033410052204483255659230"),
        },
        b: G2Affine {
            x: [
                u256("10970198678781339136039451360739256402919493905733936018567807044072972302915"),
                u256("17969804996632599314500752065264226621718741730732011051439003195120644879225"),
            ],
            y: [
                u256("12838843182760738365092422718132994180261846015110376812162643571983566251328"),
                u256("10274407733932184301684127680370353775282162047081888242499546519304733605"),
            ],
        },
        c: G1Affine {
            x: u256("9457691057294082210004347434205523973500867149942472710321839541505714818518"),
            y: u256("1969710731313679419138676630718164627777075664359407762059172130399473623983"),
        },
    }
}

#[test]
fn test_proof_to_solidity_inputs() {
    let proof = sample_proof();
    let solidity_inputs = proof_to_solidity_inputs(&proof);
    assert_eq!(
        hex_prefixed(&solidity_inputs),
        "0x1d545e0994ec438a542ec0970a31b9f1656bcc449c288285876a9f8f660d2f8e25adc9c847ad3aed1bdda0323d058a3b700d66170c624940724a7acd02eaeade27ba8c98339e26c3a3f2c89dd886e189433ffb00443527a3c9baf01b306973791840e99422d0167afbcd17c91032440adc0ff8b8fc430dd9773da0278d553a430005d0aaf6af63772c5dc28868bbe579ddaec180e5de6cdc3f8fcca9207903a51c6287190317481f2dcf8b5464113824b7e1861e7c3acc45a6f7e2e324a4254014e8dd0a6900a8cf4a455e2dbc49d70109ca9e29db2f740226908ecd42780dd6045ad11798bd36efc5d466c8ec8182db37391715a87bcc34f218bbd83ef7e3af"
    );
}

#[test]
fn proof_bytes_are_eight_words() {
    let proof = sample_proof();
    assert_eq!(proof_to_solidity_inputs(&proof).len(), 256);
}

#[test]
fn u256_decimal_text() {
    assert_eq!(u256_to_decimal(&U256::zero()), "0");
    assert_eq!(u256_to_decimal(&U256::from_u128(100_000_000_000_000_000_000)), "100000000000000000000");
    let big = "13266136784835640332844746266198608263901891282482609564079887369169768624014";
    assert_eq!(u256_to_decimal(&u256(big)), big);
    let max = "115792089237316195423570985008687907853269984665640564039457584007913129639935";
    assert_eq!(u256_to_decimal(&u256(max)), max);
}

#[test]
fn deposit_calldata_is_selector_and_commitment() {
    let commitment = B256::new([0x11; 32]);
    let data = deposit_calldata(&commitment);
    let selector = &keccak256(b"deposit(bytes32)")[..4];
    assert_eq!(&data[..4], selector);
    assert_eq!(&data[4..], &[0x11u8; 32][..]);
    assert_eq!(hex_prefixed(&data[..4]), "0xb214faa5");
}

#[test]
fn root_queries() {
    let root = B256::new([0xab; 32]);
    let data = is_known_root_calldata(&root);
    assert_eq!(hex_prefixed(&data[..4]), "0x6d9833e3");
    assert_eq!(&data[4..], &[0xabu8; 32][..]);
    let last = get_last_root_calldata();
    assert_eq!(hex_prefixed(&last), "0xba70f757");
    assert!(root_verdict(root, true).is_ok());
    match root_verdict(root, false) {
        Err(VerifierError::InvalidRoot { root: r }) => assert_eq!(r, root),
        _ => panic!("an unknown root is invalid"),
    }
}

#[test]
fn withdraw_calldata_layout() {
    let proof = sample_proof();
    let root = B256::new([1; 32]);
    let nullifier_hash = B256::new([2; 32]);
    let recipient = Address::new([3; 20]);
    let relayer = Address::new([4; 20]);
    let fee = U256::from_u128(5);
    let refund = U256::from_u128(6);
    let data = withdraw_calldata(&proof, &root, &nullifier_hash, &recipient, &relayer, &fee, &refund);
    assert_eq!(data.len(), 4 + 32 * 8 + 256);
    let selector = &keccak256(b"withdraw(bytes,bytes32,bytes32,address,address,uint256,uint256)")[..4];
    assert_eq!(&data[..4], selector);
    let word = |k: usize| &data[4 + 32 * k..4 + 32 * k + 32];
    assert_eq!(word(0)[31], 0xe0);
    assert!(word(0)[..31].iter().all(|b| *b == 0));
    assert_eq!(word(1), &[1u8; 32][..]);
    assert_eq!(word(2), &[2u8; 32][..]);
    assert_eq!(&word(3)[12..], &[3u8; 20][..]);
    assert_eq!(&word(4)[12..], &[4u8; 20][..]);
    assert_eq!(word(5)[31], 5);
    assert_eq!(word(6)[31], 6);
    assert_eq!(word(7)[30], 1);
    assert_eq!(word(7)[31], 0);
    assert_eq!(&data[4 + 32 * 8..], &proof_to_solidity_inputs(&proof)[..]);
}

#[test]
fn deposit_sends_the_denomination() {
    let provider = TornadoProvider::new(1, Indexer::new(), ());
    let pool = Eth1Pool {};
    let commitment = B256::new([7; 32]);
    let tx = provider.deposit(&pool, &commitment);
    assert_eq!(tx.to, pool.address());
    assert_eq!(tx.data, deposit_calldata(&commitment));
    assert_eq!(u256_to_decimal(&tx.value), "1000000000000000000");
}

#[test]
fn state_round_trip() {
    let mut provider = TornadoProvider::new(1, Indexer::new(), ());
    let state = TornadoProviderState {
        chain_id: 11155111,
        indexer_state: IndexerState {
            synced_block: 42,
            commitments: vec![B256::new([1; 32]), B256::new([2; 32])],
            nullifiers: vec![B256::new([3; 32])],
        },
    };
    provider.set_state(state);
    let read = provider.state();
    assert_eq!(read.chain_id, 11155111);
    assert_eq!(read.indexer_state.synced_block, 42);
    assert_eq!(read.indexer_state.commitments, vec![B256::new([1; 32]), B256::new([2; 32])]);
    assert_eq!(read.indexer_state.nullifiers, vec![B256::new([3; 32])]);
    provider.set_state(read);
    let again = provider.state();
    assert_eq!(again.chain_id, 11155111);
    assert_eq!(again.indexer_state.synced_block, 42);
}

#[test]
fn u256_decimal_parsing_matches_ruint() {
    for s in [
        "0",
        "",
        "1_000",
        "42",
        "115792089237316195423570985008687907853269984665640564039457584007913129639935",
        "115792089237316195423570985008687907853269984665640564039457584007913129639936",
        "-1",
        "12a",
        "+5",
        " 7",
    ] {
        let ours = privacy_providers::groth16::parse_u256_decimal(s).map(|v| v.limbs);
        let theirs = RU256::from_str_radix(s, 10).ok().map(|v| v.into_limbs());
        assert_eq!(ours, theirs, "input {:?}", s);
    }
}

#[test]
fn calls_with_a_given_selector() {
    let hash = B256::new([9; 32]);
    let word = B256::new([8; 32]);
    let data = call_with_word(&hash, &word);
    assert_eq!(&data[..4], &[9u8; 4][..]);
    assert_eq!(&data[4..], &[8u8; 32][..]);
    assert_eq!(call_without_arguments(&hash), vec![9u8; 4]);
}

#[test]
fn provider_error_messages() {
    assert_eq!(TornadoProviderError::Indexer("x".to_string()).to_string(), "Indexer error: x");
    assert_eq!(
        TornadoProviderError::WithdrawCircuitInputs("y".to_string()).to_string(),
        "Withdraw circuit inputs error: y"
    );
    assert_eq!(TornadoProviderError::Prover("z".to_string()).to_string(), "Prover error: z");
}

#[test]
fn known_root_answers() {
    let mut yes = vec![0u8; 32];
    yes[31] = 1;
    assert!(matches!(decode_bool_answer(&yes), Ok(true)));
    assert!(matches!(decode_bool_answer(&[0u8; 32]), Ok(false)));
    let mut longer = vec![0u8; 40];
    longer[35] = 1;
    assert!(matches!(decode_bool_answer(&longer), Ok(false)));
    assert!(matches!(decode_bool_answer(&[1u8; 31]), Err(VerifierError::Other(_))));
    let provider = TornadoProvider::new(1, Indexer::new(), ());
    assert_eq!(provider.indexer().state().synced_block, 0);
}
