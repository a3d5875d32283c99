use bitcoin::secp256k1::key::{PublicKey as SecpPublicKey, SecretKey as SecpSecretKey};
use bitcoin::secp256k1::Secp256k1;
use lightning::feerate::{compute_output_value, feerate_bump, subtract_high_prio_fee, FeeEstimates, MIN_RELAY_FEE_SAT_PER_1000_WEIGHT};
use lightning::finalize::ClaimSigner;
use lightning::outputs::{HTLCOutputInCommitment, InputDescriptors, LocalFundingOutput, LocalHTLCOutput, RemoteHTLCOutput, RevokedOutput};
use lightning::package::{get_witnesses_weight, PackageTemplate};
use lightning::primitives::{OutPoint, PaymentHash, PaymentPreimage, PublicKey, SecretKey};
use lightning::request::{BumpStrategy, OnchainRequest};
use lightning::ser::DecodeError;
use lightning::transaction::Transaction;

fn public_key(byte: u8) -> PublicKey {
    let secp_ctx = Secp256k1::new();
    let secret = SecpSecretKey::from_slice(&[byte; 32]).unwrap();
    PublicKey::new(SecpPublicKey::from_secret_key(&secp_ctx, &secret).serialize())
}

fn htlc(amount_msat: u64, cltv_expiry: u32) -> HTLCOutputInCommitment {
    HTLCOutputInCommitment {
        offered: true,
        amount_msat,
        cltv_expiry,
        payment_hash: PaymentHash([7; 32]),
        transaction_output_index: Some(3),
    }
}

fn justice(txid_byte: u8, vout: u32, amount: u64, payment: Option<HTLCOutputInCommitment>) -> PackageTemplate {
    PackageTemplate::build_malleable_justice_tx(
        public_key(1),
        SecretKey::new([9; 32]),
        public_key(2),
        public_key(3),
        if payment.is_some() { InputDescriptors::RevokedOfferedHTLC } else { InputDescriptors::RevokedOutput },
        [txid_byte; 32],
        vout,
        amount,
        payment,
        144,
    )
}

fn remote(txid_byte: u8, vout: u32, amount_msat: u64, preimage: Option<PaymentPreimage>) -> PackageTemplate {
    PackageTemplate::build_remote_htlc_tx(public_key(1), public_key(2), public_key(3), preimage, htlc(amount_msat, 500_000), [txid_byte; 32], vout)
}

fn p2wpkh() -> Vec<u8> {
    let mut script = vec![0u8, 20];
    script.extend_from_slice(&[0xab; 20]);
    script
}

#[test]
fn witness_weights_are_frozen() {
    assert_eq!(get_witnesses_weight(&[]), 2);
    assert_eq!(get_witnesses_weight(&[InputDescriptors::RevokedOfferedHTLC]), 2 + 243);
    assert_eq!(get_witnesses_weight(&[InputDescriptors::RevokedReceivedHTLC]), 2 + 249);
    assert_eq!(get_witnesses_weight(&[InputDescriptors::OfferedHTLC]), 2 + 242);
    assert_eq!(get_witnesses_weight(&[InputDescriptors::ReceivedHTLC]), 2 + 217);
    assert_eq!(get_witnesses_weight(&[InputDescriptors::RevokedOutput]), 2 + 155);
    assert_eq!(
        get_witnesses_weight(&[InputDescriptors::RevokedOutput, InputDescriptors::OfferedHTLC, InputDescriptors::RevokedOutput]),
        2 + 155 + 242 + 155
    );
}

#[test]
fn builders_claim_one_outpoint() {
    let package = justice(1, 0, 10_000, None);
    assert_eq!(package.outpoints(), vec![OutPoint { txid: [1; 32], vout: 0 }]);
    assert_eq!(package.package_amounts(), 10_000);
    let package = remote(2, 1, 5_999, None);
    assert_eq!(package.outpoints(), vec![OutPoint { txid: [2; 32], vout: 1 }]);
    assert_eq!(package.package_amounts(), 5);
    let package = PackageTemplate::build_local_htlc_tx(None, 700, [3; 32], 2);
    assert_eq!(package.outpoints(), vec![OutPoint { txid: [3; 32], vout: 2 }]);
    assert_eq!(package.package_amounts(), 0);
    let package = PackageTemplate::build_local_commitment_tx(vec![1, 2, 3], [4; 32], 0);
    assert_eq!(package.outpoints(), vec![OutPoint { txid: [4; 32], vout: 0 }]);
    assert_eq!(package.package_amounts(), 0);
    assert_eq!(PackageTemplate::default().outpoints(), Vec::<OutPoint>::new());
    assert_eq!(PackageTemplate::default().package_amounts(), 0);
}

#[test]
fn merge_claims_the_outpoints_and_amounts_of_both() {
    let mut package = justice(1, 0, 10_000, None);
    package.package_merge(justice(1, 1, 2_500, Some(htlc(2_500_000, 100))));
    let mut other = justice(2, 0, 40, None);
    other.package_merge(justice(2, 7, 2, None));
    let before = package.outpoints();
    let added = other.outpoints();
    let sum = package.package_amounts() + other.package_amounts();
    package.package_merge(other);
    let after = package.outpoints();
    assert_eq!(after.len(), 4);
    for outpoint in before.iter().chain(added.iter()) {
        assert!(after.contains(outpoint));
    }
    for outpoint in after.iter() {
        assert!(before.contains(outpoint) || added.contains(outpoint));
    }
    assert_eq!(package.package_amounts(), sum);
    assert_eq!(package.package_amounts(), 12_542);
}

#[test]
fn merge_of_a_claimed_outpoint_replaces_the_claim() {
    let mut package = justice(1, 0, 10_000, None);
    package.package_merge(justice(1, 1, 5, None));
    package.package_merge(justice(1, 0, 300, None));
    assert_eq!(package.outpoints(), vec![OutPoint { txid: [1; 32], vout: 0 }, OutPoint { txid: [1; 32], vout: 1 }]);
    assert_eq!(package.package_amounts(), 305);
}

#[test]
fn merge_of_remote_packages() {
    let mut package = remote(1, 0, 10_000, Some(PaymentPreimage([5; 32])));
    package.package_merge(remote(1, 1, 5_500, None));
    assert_eq!(package.outpoints().len(), 2);
    assert_eq!(package.package_amounts(), 15);
}

#[test]
fn amounts_are_held_at_the_largest_value() {
    let mut package = justice(1, 0, u64::max_value(), None);
    package.package_merge(justice(1, 1, 5, None));
    assert_eq!(package.package_amounts(), u64::max_value());
}

#[test]
fn split_takes_one_claim_out() {
    let mut package = justice(1, 0, 10_000, None);
    package.package_merge(justice(1, 1, 5, None));
    package.package_merge(justice(1, 2, 70, None));
    let split = package.package_split(&OutPoint { txid: [1; 32], vout: 1 }).unwrap();
    assert_eq!(split, justice(1, 1, 5, None));
    assert_eq!(package.outpoints(), vec![OutPoint { txid: [1; 32], vout: 0 }, OutPoint { txid: [1; 32], vout: 2 }]);
    assert_eq!(package.package_amounts(), 10_070);
    assert!(package.package_split(&OutPoint { txid: [1; 32], vout: 1 }).is_none());
    assert_eq!(package.outpoints().len(), 2);
    let mut package = remote(1, 0, 10_000, None);
    let split = package.package_split(&OutPoint { txid: [1; 32], vout: 0 }).unwrap();
    assert_eq!(split, remote(1, 0, 10_000, None));
    assert_eq!(package.outpoints().len(), 0);
}

#[test]
fn package_weight_is_size_and_expected_witnesses() {
    // One input of 41 bytes and one output of 31 bytes make 82 bytes with version, counts and lock time.
    assert_eq!(justice(1, 0, 10_000, None).package_weight(&p2wpkh()), 4 * 82 + 2 + 155);
    assert_eq!(justice(1, 0, 10_000, Some(htlc(1, 1))).package_weight(&p2wpkh()), 4 * 82 + 2 + 243);
    assert_eq!(remote(1, 0, 10_000, Some(PaymentPreimage([5; 32]))).package_weight(&p2wpkh()), 4 * 82 + 2 + 242);
    assert_eq!(remote(1, 0, 10_000, None).package_weight(&p2wpkh()), 4 * 82 + 2 + 217);
    let mut package = justice(1, 0, 10_000, None);
    package.package_merge(justice(1, 1, 5, Some(htlc(1, 1))));
    assert_eq!(package.package_weight(&p2wpkh()), 4 * 123 + 2 + 155 + 243);
    // A script of 253 bytes takes three bytes for its length.
    assert_eq!(justice(1, 0, 10_000, None).package_weight(&vec![0x51; 253]), 4 * (51 + 8 + 3 + 253) + 2 + 155);
    assert_eq!(PackageTemplate::default().package_weight(&p2wpkh()), 4 * 41 + 2);
    assert_eq!(PackageTemplate::build_local_htlc_tx(None, 700, [3; 32], 2).package_weight(&p2wpkh()), 0);
    assert_eq!(PackageTemplate::build_local_commitment_tx(vec![1, 2, 3], [4; 32], 0).package_weight(&p2wpkh()), 0);
}

#[test]
fn packages_are_read_back_as_written() {
    let mut packages = Vec::new();
    packages.push(PackageTemplate::default());
    packages.push(justice(1, 0, 10_000, None));
    let mut package = justice(1, 0, 10_000, Some(htlc(2_500_000, 100)));
    package.package_merge(justice(1, 1, 5, None));
    package.package_merge(justice(200, 1, u64::max_value(), None));
    packages.push(package);
    let mut package = remote(1, 0, 10_000, Some(PaymentPreimage([5; 32])));
    package.package_merge(remote(1, 1, 5_500, None));
    packages.push(package);
    packages.push(PackageTemplate::build_local_htlc_tx(None, 700, [3; 32], 2));
    packages.push(PackageTemplate::build_local_htlc_tx(Some(PaymentPreimage([8; 32])), 700, [3; 32], 2));
    packages.push(PackageTemplate::build_local_commitment_tx(vec![1, 2, 3], [4; 32], 0));
    packages.push(PackageTemplate::build_local_commitment_tx(Vec::new(), [4; 32], 9));
    for package in packages {
        let bytes = package.encode();
        assert_eq!(PackageTemplate::decode(&bytes), Ok(package.clone()));
        let (read, next) = PackageTemplate::read(&bytes, 0).unwrap();
        assert_eq!(read, package);
        assert_eq!(next, bytes.len());
    }
}

#[test]
fn package_wire_form() {
    let bytes = PackageTemplate::build_local_htlc_tx(Some(PaymentPreimage([8; 32])), 0x0102, [3; 32], 2).encode();
    let mut expected = vec![2u8];
    expected.extend_from_slice(&[3; 32]);
    expected.extend_from_slice(&[0, 0, 0, 2]);
    expected.push(1);
    expected.extend_from_slice(&[8; 32]);
    expected.extend_from_slice(&[0, 0, 0, 0, 0, 0, 1, 2]);
    assert_eq!(bytes, expected);
    let bytes = PackageTemplate::build_local_commitment_tx(vec![0xaa, 0xbb], [4; 32], 1).encode();
    let mut expected = vec![3u8];
    expected.extend_from_slice(&[4; 32]);
    expected.extend_from_slice(&[0, 0, 0, 1]);
    expected.extend_from_slice(&[0, 2, 0xaa, 0xbb]);
    assert_eq!(bytes, expected);
    assert_eq!(PackageTemplate::default().encode(), vec![0, 0, 0, 0, 0, 0, 0, 0, 0]);
    let bytes = justice(1, 0, 10_000, None).encode();
    assert_eq!(bytes[0], 0);
    assert_eq!(&bytes[1..9], &[0, 0, 0, 0, 0, 0, 0, 1]);
    assert_eq!(&bytes[9..41], &[1; 32]);
    assert_eq!(&bytes[45..78], &public_key(1).serialize()[..]);
    assert_eq!(bytes.len(), 9 + 36 + 33 * 3 + 32 + 1 + 8 + 1 + 2);
    assert_eq!(remote(1, 0, 10_000, None).encode()[0], 1);
}

#[test]
fn decoder_rejects_what_is_no_package() {
    assert_eq!(PackageTemplate::decode(&[]), Err(DecodeError::ShortRead));
    assert_eq!(PackageTemplate::decode(&[4]), Err(DecodeError::InvalidValue));
    assert_eq!(PackageTemplate::decode(&[255, 0, 0]), Err(DecodeError::InvalidValue));
    assert_eq!(PackageTemplate::decode(&[0, 0, 0]), Err(DecodeError::ShortRead));
    // A count without the claims it announces.
    assert_eq!(PackageTemplate::decode(&[0, 255, 255, 255, 255, 255, 255, 255, 255]), Err(DecodeError::ShortRead));
    assert_eq!(PackageTemplate::decode(&[1, 0, 0, 0, 0, 0, 0, 0, 1, 9]), Err(DecodeError::ShortRead));
    let bytes = justice(1, 0, 10_000, None).encode();
    assert_eq!(PackageTemplate::decode(&bytes[..bytes.len() - 1]), Err(DecodeError::ShortRead));
    // Bytes that are no point on the curve where a key stands.
    let mut broken = bytes.clone();
    for byte in broken[45..78].iter_mut() {
        *byte = 0;
    }
    assert_eq!(PackageTemplate::decode(&broken), Err(DecodeError::InvalidValue));
    // A secret key of zeros.
    let mut broken = bytes.clone();
    for byte in broken[144..176].iter_mut() {
        *byte = 0;
    }
    assert_eq!(PackageTemplate::decode(&broken), Err(DecodeError::InvalidValue));
    // A kind of input that does not exist.
    let mut broken = bytes.clone();
    broken[176] = 5;
    assert_eq!(PackageTemplate::decode(&broken), Err(DecodeError::InvalidValue));
    // An option that is neither there nor absent.
    let mut broken = bytes.clone();
    broken[185] = 2;
    assert_eq!(PackageTemplate::decode(&broken), Err(DecodeError::InvalidValue));
    assert_eq!(PackageTemplate::decode(&bytes), Ok(justice(1, 0, 10_000, None)));
}

#[test]
fn decoder_keeps_the_last_claim_of_an_outpoint() {
    let one = justice(1, 0, 10_000, None).encode();
    let two = justice(1, 0, 77, None).encode();
    let mut bytes = vec![0, 0, 0, 0, 0, 0, 0, 0, 2];
    bytes.extend_from_slice(&one[9..]);
    bytes.extend_from_slice(&two[9..]);
    assert_eq!(PackageTemplate::decode(&bytes), Ok(justice(1, 0, 77, None)));
}

#[test]
fn keys_are_checked_by_secp256k1() {
    assert!(public_key(1).check());
    assert!(!PublicKey::new([0; 33]).check());
    let mut bytes = public_key(1).serialize();
    bytes[0] = 4;
    assert!(!PublicKey::new(bytes).check());
    assert!(SecretKey::new([1; 32]).check());
    assert!(!SecretKey::new([0; 32]).check());
    assert!(!SecretKey::new([255; 32]).check());
}

#[test]
fn default_request_holds_no_claim() {
    let request = OnchainRequest::default();
    assert_eq!(request.aggregation, true);
    assert_eq!(request.bump_strategy, BumpStrategy::RBF);
    assert_eq!(request.feerate_previous, 0);
    assert_eq!(request.height_timer, None);
    assert_eq!(request.absolute_timelock, u32::max_value());
    assert_eq!(request.height_original, 0);
    assert_eq!(request.content, PackageTemplate::default());
}

fn request(height_original: u32, absolute_timelock: u32, content: PackageTemplate) -> OnchainRequest {
    OnchainRequest {
        aggregation: false,
        bump_strategy: BumpStrategy::CPFP,
        feerate_previous: 253,
        height_timer: Some(17),
        absolute_timelock,
        height_original,
        content,
    }
}

#[test]
fn first_merge_gives_a_request_its_claim() {
    let mut merged = OnchainRequest::default();
    merged.request_merge(request(100, 250, PackageTemplate::build_local_htlc_tx(None, 700, [3; 32], 2)));
    assert_eq!(merged.height_original, 100);
    assert_eq!(merged.absolute_timelock, 250);
    assert_eq!(merged.content, PackageTemplate::build_local_htlc_tx(None, 700, [3; 32], 2));
    // What steers the request stays as it was.
    assert_eq!(merged.aggregation, true);
    assert_eq!(merged.bump_strategy, BumpStrategy::RBF);
    assert_eq!(merged.feerate_previous, 0);
    assert_eq!(merged.height_timer, None);
}

#[test]
fn later_merges_take_the_earlier_timelock() {
    let mut merged = request(100, 250, justice(1, 0, 10_000, None));
    merged.request_merge(request(100, 200, justice(1, 1, 5, None)));
    assert_eq!(merged.absolute_timelock, 200);
    merged.request_merge(request(100, 300, justice(1, 2, 1, None)));
    assert_eq!(merged.absolute_timelock, 200);
    assert_eq!(merged.height_original, 100);
    assert_eq!(merged.content.outpoints().len(), 3);
    assert_eq!(merged.content.package_amounts(), 10_006);
    assert_eq!(merged.feerate_previous, 253);
    assert_eq!(merged.height_timer, Some(17));
}

#[test]
fn requests_are_read_back_as_written() {
    let mut requests = vec![OnchainRequest::default(), request(100, 250, justice(1, 0, 10_000, None))];
    requests.push(request(0, 0, PackageTemplate::build_local_commitment_tx(vec![1, 2, 3], [4; 32], 0)));
    let mut with_timer = request(7, 9, remote(1, 0, 10_000, None));
    with_timer.height_timer = None;
    with_timer.bump_strategy = BumpStrategy::RBF;
    requests.push(with_timer);
    for request in requests {
        let bytes = request.encode();
        assert_eq!(OnchainRequest::decode(&bytes), Ok(request));
    }
    let bytes = OnchainRequest::default().encode();
    assert_eq!(bytes, vec![1, 0, 0, 0, 0, 0, 0, 0, 0, 0, 0, 255, 255, 255, 255, 0, 0, 0, 0, 0, 0, 0, 0, 0, 0, 0, 0, 0]);
    let mut broken = bytes.clone();
    broken[0] = 2;
    assert_eq!(OnchainRequest::decode(&broken), Err(DecodeError::InvalidValue));
    let mut broken = bytes.clone();
    broken[1] = 2;
    assert_eq!(OnchainRequest::decode(&broken), Err(DecodeError::InvalidValue));
    assert_eq!(OnchainRequest::decode(&bytes[..20]), Err(DecodeError::ShortRead));
}

fn estimates() -> FeeEstimates {
    FeeEstimates { high_priority: 5000, normal: 2500, background: 1000 }
}

#[test]
fn first_broadcast_takes_the_highest_tier_it_can_pay() {
    assert_eq!(subtract_high_prio_fee(10_000, 1000, &estimates()), Some((5000, 5000)));
    assert_eq!(subtract_high_prio_fee(5000, 1000, &estimates()), Some((2500, 2500)));
    assert_eq!(subtract_high_prio_fee(2500, 1000, &estimates()), Some((1000, 1000)));
    assert_eq!(subtract_high_prio_fee(1001, 1000, &estimates()), Some((1000, 1000)));
    assert_eq!(subtract_high_prio_fee(1000, 1000, &estimates()), None);
    assert_eq!(subtract_high_prio_fee(10_000, 485, &estimates()), Some((2425, 5000)));
    assert_eq!(compute_output_value(1000, 10_000, 0, &estimates()), Some((5000, 5000)));
    assert_eq!(compute_output_value(1000, 1001, 0, &estimates()), Some((1, 1000)));
    assert_eq!(compute_output_value(1000, 1000, 0, &estimates()), None);
    assert_eq!(compute_output_value(0, 1, 0, &estimates()), Some((1, 5000)));
}

#[test]
fn bump_pays_for_the_replacement() {
    assert_eq!(MIN_RELAY_FEE_SAT_PER_1000_WEIGHT, 4000);
    // A quarter more than before is 6666; the floor is what was paid and the relay fee.
    let bumped_fee = std::cmp::max(5000 * 1000 / 750, 5000 * 1000 / 1000 + MIN_RELAY_FEE_SAT_PER_1000_WEIGHT * 1000 / 1000);
    assert_eq!(bumped_fee, 9000);
    assert_eq!(feerate_bump(1000, 1_000_000, 5000, &estimates()), Some((bumped_fee, 9000)));
    assert_eq!(compute_output_value(1000, 1_000_000, 5000, &estimates()), Some((1_000_000 - bumped_fee, 9000)));
    // A quarter more than before is above the floor.
    assert_eq!(feerate_bump(1000, 1_000_000, 30_000, &estimates()), Some((40_000, 40_000)));
    assert_eq!(feerate_bump(2000, 1_000_000, 30_000, &estimates()), Some((80_000, 40_000)));
    // Below the high-priority tier the tiers decide.
    assert_eq!(feerate_bump(1000, 10_000, 1000, &estimates()), Some((5000, 5000)));
    assert_eq!(feerate_bump(1000, 4000, 500, &estimates()), Some((4500, 4500)));
    assert_eq!(feerate_bump(1000, 500, 1000, &estimates()), None);
    assert_eq!(compute_output_value(1000, 500, 1000, &estimates()), None);
}

#[test]
fn bump_never_pays_less_than_the_floor() {
    for weight in [1usize, 137, 485, 1000, 400_000] {
        for previous in [1u64, 253, 4999, 5000, 5001, 1_000_000] {
            for input in [0u64, 1, 5000, 1_000_000, u64::max_value()] {
                if let Some((fee, _)) = feerate_bump(weight, input, previous, &estimates()) {
                    let floor = previous * weight as u64 / 1000 + MIN_RELAY_FEE_SAT_PER_1000_WEIGHT * weight as u64 / 1000;
                    assert!(fee >= floor);
                }
            }
        }
    }
}

#[test]
fn bump_that_takes_all_leaves_nothing() {
    assert_eq!(compute_output_value(1000, 6000, 5000, &estimates()), Some((0, 9000)));
    assert_eq!(compute_output_value(1000, 9000, 5000, &estimates()), Some((0, 9000)));
    assert_eq!(compute_output_value(1000, 9001, 5000, &estimates()), Some((1, 9000)));
    // Fees that do not fit 64 bits are held at the largest value.
    assert_eq!(feerate_bump(1000, 5, u64::max_value(), &estimates()), Some((u64::max_value(), u64::max_value())));
}

struct TestSigner {
    fail_at: Option<usize>,
    refuse_scripts: bool,
    seen_lock_times: std::cell::RefCell<Vec<u32>>,
}

impl TestSigner {
    fn new() -> TestSigner {
        TestSigner { fail_at: None, refuse_scripts: false, seen_lock_times: std::cell::RefCell::new(Vec::new()) }
    }
}

fn held_transaction(lock_time: u32) -> Transaction {
    Transaction { version: 2, lock_time, input: Vec::new(), output: Vec::new() }
}

impl ClaimSigner for TestSigner {
    fn justice_script(&self, _output: &RevokedOutput) -> Option<(PublicKey, Vec<u8>)> {
        if self.refuse_scripts { None } else { Some((public_key(4), vec![0xaa, 0xbb])) }
    }

    fn sign_justice_transaction(&self, justice_tx: &Transaction, input_index: usize, amount: u64, _per_commitment_key: &SecretKey, _htlc: &Option<HTLCOutputInCommitment>, _on_remote_tx_csv: u16) -> Option<Vec<u8>> {
        self.seen_lock_times.borrow_mut().push(justice_tx.lock_time);
        if self.fail_at == Some(input_index) { None } else { Some(vec![0x30, input_index as u8, amount as u8]) }
    }

    fn remote_htlc_script(&self, _output: &RemoteHTLCOutput) -> Option<Vec<u8>> {
        if self.refuse_scripts { None } else { Some(vec![0xcc]) }
    }

    fn sign_remote_htlc_transaction(&self, htlc_tx: &Transaction, input_index: usize, amount: u64, _per_commitment_point: &PublicKey, _htlc: &HTLCOutputInCommitment) -> Option<Vec<u8>> {
        self.seen_lock_times.borrow_mut().push(htlc_tx.lock_time);
        if self.fail_at == Some(input_index) { None } else { Some(vec![0x30, input_index as u8, amount as u8]) }
    }

    fn get_fully_signed_htlc_tx(&mut self, _outpoint: &OutPoint, preimage: &Option<PaymentPreimage>) -> Option<Transaction> {
        if self.refuse_scripts { None } else { Some(held_transaction(if preimage.is_some() { 1 } else { 2 })) }
    }

    fn get_fully_signed_local_tx(&mut self, funding_redeemscript: &Vec<u8>) -> Option<Transaction> {
        if self.refuse_scripts { None } else { Some(held_transaction(funding_redeemscript.len() as u32)) }
    }
}

#[test]
fn justice_claim_is_finalized() {
    let mut package = justice(1, 0, 10, None);
    package.package_merge(justice(1, 1, 20, Some(htlc(20_000, 100))));
    let mut signer = TestSigner::new();
    let tx = package.package_finalize(&mut signer, 777, p2wpkh()).unwrap();
    assert_eq!(tx.version, 2);
    assert_eq!(tx.lock_time, 0);
    assert_eq!(tx.output.len(), 1);
    assert_eq!(tx.output[0].value, 777);
    assert_eq!(tx.output[0].script_pubkey, p2wpkh());
    assert_eq!(tx.input.len(), 2);
    for (i, input) in tx.input.iter().enumerate() {
        assert_eq!(input.previous_output, package.outpoints()[i]);
        assert_eq!(input.sequence, 0xfffffffd);
        assert!(input.script_sig.is_empty());
        assert_eq!(input.witness.len(), 3);
        assert_eq!(input.witness[2], vec![0xaa, 0xbb]);
    }
    assert_eq!(tx.input[0].witness[0], vec![0x30, 0, 10, 1]);
    assert_eq!(tx.input[1].witness[0], vec![0x30, 1, 20, 1]);
    assert_eq!(tx.input[0].witness[1], vec![1]);
    assert_eq!(tx.input[1].witness[1], public_key(4).serialize().to_vec());
    assert_eq!(package.package_finalize(&mut signer, 777, p2wpkh()), Some(tx));
}

#[test]
fn remote_claim_is_finalized() {
    let mut package = remote(1, 0, 10_000, Some(PaymentPreimage([5; 32])));
    let mut signer = TestSigner::new();
    let tx = package.package_finalize(&mut signer, 9, p2wpkh()).unwrap();
    assert_eq!(tx.lock_time, 0);
    assert_eq!(tx.input[0].witness, vec![vec![0x30, 0, 10, 1], vec![5; 32], vec![0xcc]]);
    package.package_merge(remote(1, 1, 7_000, None));
    package.package_merge(remote(1, 2, 3_000, Some(PaymentPreimage([6; 32]))));
    let signer_two = TestSigner::new();
    let mut signer = signer_two;
    let tx = package.package_finalize(&mut signer, 9, p2wpkh()).unwrap();
    assert_eq!(tx.version, 2);
    assert_eq!(tx.lock_time, 500_000);
    assert_eq!(tx.output[0].value, 9);
    assert_eq!(tx.input.len(), 3);
    assert_eq!(tx.input[1].witness, vec![vec![0x30, 1, 7, 1], Vec::new(), vec![0xcc]]);
    assert_eq!(tx.input[2].witness, vec![vec![0x30, 2, 3, 1], vec![6; 32], vec![0xcc]]);
    assert_eq!(tx.input[2].sequence, 0xfffffffd);
    assert_eq!(*signer.seen_lock_times.borrow(), vec![0, 500_000, 500_000]);
}

#[test]
fn signer_failure_gives_no_transaction() {
    let mut package = justice(1, 0, 10, None);
    package.package_merge(justice(1, 1, 20, None));
    let mut signer = TestSigner::new();
    signer.fail_at = Some(1);
    assert_eq!(package.package_finalize(&mut signer, 777, p2wpkh()), None);
    assert_eq!(remote(1, 0, 10_000, None).package_finalize(&mut signer, 9, p2wpkh()).map(|tx| tx.input.len()), Some(1));
    signer.fail_at = Some(0);
    assert_eq!(remote(1, 0, 10_000, None).package_finalize(&mut signer, 9, p2wpkh()), None);
    let mut signer = TestSigner::new();
    signer.refuse_scripts = true;
    assert_eq!(package.package_finalize(&mut signer, 777, p2wpkh()), None);
    assert_eq!(remote(1, 0, 10_000, None).package_finalize(&mut signer, 9, p2wpkh()), None);
    assert_eq!(PackageTemplate::build_local_htlc_tx(None, 700, [3; 32], 2).package_finalize(&mut signer, 0, Vec::new()), None);
    assert_eq!(PackageTemplate::build_local_commitment_tx(vec![1, 2, 3], [4; 32], 0).package_finalize(&mut signer, 0, Vec::new()), None);
}

#[test]
fn local_claims_are_the_signers() {
    let mut signer = TestSigner::new();
    let package = PackageTemplate::build_local_htlc_tx(Some(PaymentPreimage([8; 32])), 700, [3; 32], 2);
    assert_eq!(package.package_finalize(&mut signer, 0, Vec::new()), Some(held_transaction(1)));
    let package = PackageTemplate::build_local_htlc_tx(None, 700, [3; 32], 2);
    assert_eq!(package.package_finalize(&mut signer, 0, Vec::new()), Some(held_transaction(2)));
    let package = PackageTemplate::build_local_commitment_tx(vec![1, 2, 3], [4; 32], 0);
    assert_eq!(package.package_finalize(&mut signer, 0, Vec::new()), Some(held_transaction(3)));
    assert_eq!(LocalFundingOutput { funding_redeemscript: vec![1] }.funding_redeemscript, vec![1]);
    assert_eq!(LocalHTLCOutput { preimage: None, amount: 3 }.amount, 3);
}

#[test]
fn package_without_claims_needs_no_signer() {
    let mut signer = TestSigner::new();
    signer.refuse_scripts = true;
    signer.fail_at = Some(0);
    let tx = PackageTemplate::default().package_finalize(&mut signer, 12, p2wpkh()).unwrap();
    assert_eq!(tx.version, 2);
    assert_eq!(tx.lock_time, 0);
    assert!(tx.input.is_empty());
    assert_eq!(tx.output.len(), 1);
    assert_eq!(tx.output[0].value, 12);
    assert_eq!(tx.output[0].script_pubkey, p2wpkh());
    let mut emptied = remote(1, 0, 10_000, None);
    emptied.package_split(&OutPoint { txid: [1; 32], vout: 0 }).unwrap();
    let tx = emptied.package_finalize(&mut signer, 3, Vec::new()).unwrap();
    assert!(tx.input.is_empty());
    assert_eq!(tx.lock_time, 0);
    assert_eq!(tx.output[0].value, 3);
    assert!(signer.seen_lock_times.borrow().is_empty());
}
