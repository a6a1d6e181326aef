use cw_bitcoin::error::ContractError;
use cw_bitcoin::fees::{minimum_deposit_fees, minimum_withdrawal_fees};
use cw_bitcoin::interface::CheckpointConfig;
use cw_bitcoin::scheduling::adjust_fee_rate;
use cw_bitcoin::tx::{BitcoinTx, Output};

/// A version-0 witness program of 32 bytes; its dust value is 330 satoshis.
fn witness_script(tag: u8) -> Vec<u8> {
    let mut script = vec![0x00, 0x20];
    script.extend_from_slice(&[tag; 32]);
    script
}

/// A script behind `OP_RETURN`; its dust value is zero.
fn data_script() -> Vec<u8> {
    vec![0x6a, 0x01, 0x2a]
}

fn tx_with(outputs: Vec<Output>) -> BitcoinTx {
    let mut tx = BitcoinTx::with_lock_time(0);
    tx.output = outputs;
    tx
}

fn values(tx: &BitcoinTx) -> Vec<u64> {
    tx.output.iter().map(|o| o.value).collect()
}

#[test]
fn adjust_fee_rate_up_by_a_quarter() {
    let config = CheckpointConfig { max_fee_rate: 2000, min_fee_rate: 1, ..CheckpointConfig::default() };
    assert_eq!(adjust_fee_rate(1000, true, &config), 1250);
}

#[test]
fn adjust_fee_rate_down_by_a_quarter() {
    let config = CheckpointConfig { min_fee_rate: 500, max_fee_rate: 2000, ..CheckpointConfig::default() };
    assert_eq!(adjust_fee_rate(1000, false, &config), 750);
}

#[test]
fn adjust_fee_rate_is_capped_and_floored() {
    let config = CheckpointConfig { min_fee_rate: 800, max_fee_rate: 1100, ..CheckpointConfig::default() };
    assert_eq!(adjust_fee_rate(1000, true, &config), 1100);
    assert_eq!(adjust_fee_rate(1000, false, &config), 800);
}

#[test]
fn adjust_fee_rate_moves_by_at_least_one() {
    let config = CheckpointConfig { min_fee_rate: 0, max_fee_rate: 100, ..CheckpointConfig::default() };
    assert_eq!(adjust_fee_rate(1, true, &config), 2);
    assert_eq!(adjust_fee_rate(2, true, &config), 3);
    assert_eq!(adjust_fee_rate(3, false, &config), 2);
    assert_eq!(adjust_fee_rate(1, false, &config), 0);
}

#[test]
fn adjust_fee_rate_at_the_ends_of_the_range() {
    let config = CheckpointConfig { min_fee_rate: 7, max_fee_rate: u64::MAX, ..CheckpointConfig::default() };
    assert_eq!(adjust_fee_rate(0, false, &config), 7);
    assert_eq!(adjust_fee_rate(u64::MAX, true, &config), u64::MAX);
    let inverted = CheckpointConfig { min_fee_rate: 50, max_fee_rate: 10, ..CheckpointConfig::default() };
    assert_eq!(adjust_fee_rate(20, true, &inverted), 50);
}

#[test]
fn deduct_fee_zero_changes_nothing() {
    let mut tx = tx_with(vec![Output { value: 5, script_pubkey: witness_script(1) }]);
    assert_eq!(tx.deduct_fee(0), Ok(()));
    assert_eq!(values(&tx), vec![5]);
    let mut empty = BitcoinTx::with_lock_time(7);
    assert_eq!(empty.deduct_fee(0), Ok(()));
    assert_eq!(empty, BitcoinTx::with_lock_time(7));
}

#[test]
fn deduct_fee_without_outputs_fails() {
    let mut tx = BitcoinTx::with_lock_time(0);
    assert_eq!(tx.deduct_fee(1), Err(ContractError::BitcoinFee(1)));
    assert_eq!(tx, BitcoinTx::with_lock_time(0));
}

#[test]
fn deduct_fee_splits_evenly() {
    let mut tx = tx_with(vec![
        Output { value: 10_000, script_pubkey: witness_script(1) },
        Output { value: 20_000, script_pubkey: witness_script(2) },
    ]);
    assert_eq!(tx.deduct_fee(1000), Ok(()));
    assert_eq!(values(&tx), vec![9_500, 19_500]);
}

#[test]
fn deduct_fee_leaves_the_remainder_of_the_division() {
    let mut tx = tx_with(vec![
        Output { value: 10_000, script_pubkey: witness_script(1) },
        Output { value: 10_000, script_pubkey: witness_script(2) },
        Output { value: 10_000, script_pubkey: witness_script(3) },
    ]);
    assert_eq!(tx.deduct_fee(1000), Ok(()));
    assert_eq!(values(&tx), vec![9_667, 9_667, 9_667]);
    assert_eq!(tx.value(), Ok(30_000 - 999));
}

#[test]
fn deduct_fee_drops_outputs_that_cannot_pay() {
    // The share of 500 is more than the small output holds beyond its dust
    // value of 330, so the large output pays the whole fee.
    let mut tx = tx_with(vec![
        Output { value: 800, script_pubkey: witness_script(1) },
        Output { value: 50_000, script_pubkey: witness_script(2) },
    ]);
    assert_eq!(tx.deduct_fee(1000), Ok(()));
    assert_eq!(values(&tx), vec![49_000]);
    assert_eq!(tx.output[0].script_pubkey, witness_script(2));
}

#[test]
fn deduct_fee_counts_the_dust_value_of_the_script() {
    // 831 - 330 = 501 pays a share of 500; 830 - 330 = 500 does not.
    let mut pays = tx_with(vec![
        Output { value: 831, script_pubkey: witness_script(1) },
        Output { value: 831, script_pubkey: witness_script(2) },
    ]);
    assert_eq!(pays.deduct_fee(1000), Ok(()));
    assert_eq!(values(&pays), vec![331, 331]);
    let mut fails = tx_with(vec![
        Output { value: 830, script_pubkey: witness_script(1) },
        Output { value: 830, script_pubkey: witness_script(2) },
    ]);
    assert_eq!(fails.deduct_fee(1000), Ok(()));
    assert_eq!(values(&fails), Vec::<u64>::new());
    // An output behind OP_RETURN has no dust value.
    let mut data = tx_with(vec![
        Output { value: 501, script_pubkey: data_script() },
        Output { value: 501, script_pubkey: data_script() },
    ]);
    assert_eq!(data.deduct_fee(1000), Ok(()));
    assert_eq!(values(&data), vec![1, 1]);
}

#[test]
fn deduct_fee_keeps_an_output_that_holds_exactly_its_share() {
    // Round one: share 5, the output of 5 drops out. The output that is
    // left holds exactly the whole fee, and pays it.
    let mut tx = tx_with(vec![
        Output { value: 5, script_pubkey: data_script() },
        Output { value: 10, script_pubkey: data_script() },
    ]);
    assert_eq!(tx.deduct_fee(10), Ok(()));
    assert_eq!(values(&tx), vec![0]);
    // With a dust value to keep, it holds 340 beyond the share of 10 at
    // first, but not the 340 that it is to pay alone.
    let mut tx = tx_with(vec![
        Output { value: 330, script_pubkey: witness_script(1) },
        Output { value: 330 + 340, script_pubkey: witness_script(2) },
    ]);
    assert_eq!(tx.deduct_fee(340), Ok(()));
    assert_eq!(values(&tx), vec![330]);
    let mut tx = tx_with(vec![
        Output { value: 330, script_pubkey: witness_script(1) },
        Output { value: 330 + 339, script_pubkey: witness_script(2) },
    ]);
    assert_eq!(tx.deduct_fee(340), Ok(()));
    assert!(tx.output.is_empty());
}

#[test]
fn deduct_fee_beyond_the_value_fails() {
    // The three outputs hold 10 together.
    let mut tx = tx_with(vec![
        Output { value: 0, script_pubkey: data_script() },
        Output { value: 5, script_pubkey: data_script() },
        Output { value: 5, script_pubkey: data_script() },
    ]);
    let before = tx.clone();
    assert_eq!(tx.deduct_fee(11), Err(ContractError::BitcoinFee(11)));
    assert_eq!(tx, before);
    assert_eq!(tx.deduct_fee(u64::MAX), Err(ContractError::BitcoinFee(u64::MAX)));
    assert_eq!(tx, before);
    // All that they hold can be taken: the empty output is dropped, and
    // each of the others pays 5.
    assert_eq!(tx.deduct_fee(10), Ok(()));
    assert_eq!(values(&tx), vec![0, 0]);
}

#[test]
fn deduct_fee_beyond_the_value_of_one_output_fails() {
    let mut tx = tx_with(vec![Output { value: 100, script_pubkey: data_script() }]);
    let before = tx.clone();
    assert_eq!(tx.deduct_fee(101), Err(ContractError::BitcoinFee(101)));
    assert_eq!(tx, before);
    // An output must hold more than the fee to stay.
    assert_eq!(tx.deduct_fee(100), Ok(()));
    assert!(tx.output.is_empty());
}

#[test]
fn deduct_fee_beyond_the_value_fails_whatever_the_dust_values() {
    // The fee is within what the outputs hold, so it is deducted, though
    // no output can pay its share beyond its dust value.
    let mut tx = tx_with(vec![
        Output { value: 830, script_pubkey: witness_script(1) },
        Output { value: 830, script_pubkey: witness_script(2) },
    ]);
    assert_eq!(tx.deduct_fee(1_660), Ok(()));
    assert!(tx.output.is_empty());
    // One satoshi more is refused.
    let mut tx = tx_with(vec![
        Output { value: 830, script_pubkey: witness_script(1) },
        Output { value: 830, script_pubkey: witness_script(2) },
    ]);
    let before = tx.clone();
    assert_eq!(tx.deduct_fee(1_661), Err(ContractError::BitcoinFee(1_661)));
    assert_eq!(tx, before);
}

#[test]
fn deduct_fee_is_within_a_value_beyond_64_bits() {
    // The outputs hold more than any fee, though their sum has no 64 bits.
    let mut tx = tx_with(vec![
        Output { value: u64::MAX, script_pubkey: data_script() },
        Output { value: 1, script_pubkey: data_script() },
    ]);
    assert_eq!(tx.value(), Err(ContractError::Overflow));
    assert_eq!(tx.deduct_fee(u64::MAX), Ok(()));
    assert_eq!(values(&tx), vec![0]);
}

#[test]
fn deduct_fee_takes_several_rounds() {
    // Round one: share 2000, the two small outputs drop out. Round two:
    // share 4000, the output of 3300 holds 2970 beyond dust and drops out.
    // Round three: the last output pays all.
    let mut tx = tx_with(vec![
        Output { value: 1_000, script_pubkey: witness_script(1) },
        Output { value: 3_300, script_pubkey: witness_script(2) },
        Output { value: 900, script_pubkey: witness_script(3) },
        Output { value: 40_000, script_pubkey: witness_script(4) },
    ]);
    assert_eq!(tx.deduct_fee(8000), Ok(()));
    assert_eq!(values(&tx), vec![32_000]);
}

#[test]
fn deduct_fee_stops_when_all_that_stay_can_pay() {
    // Round one: share 1000, the two small outputs drop out. Round two:
    // share 2000, which both outputs that are left can pay.
    let mut tx = tx_with(vec![
        Output { value: 1_000, script_pubkey: witness_script(1) },
        Output { value: 3_300, script_pubkey: witness_script(2) },
        Output { value: 900, script_pubkey: witness_script(3) },
        Output { value: 40_000, script_pubkey: witness_script(4) },
    ]);
    assert_eq!(tx.deduct_fee(4000), Ok(()));
    assert_eq!(values(&tx), vec![1_300, 38_000]);
}

#[test]
fn value_sums_the_outputs() {
    let tx = tx_with(vec![
        Output { value: 1, script_pubkey: vec![] },
        Output { value: 2, script_pubkey: vec![] },
    ]);
    assert_eq!(tx.value(), Ok(3));
    assert_eq!(BitcoinTx::with_lock_time(0).value(), Ok(0));
}

#[test]
fn value_reports_overflow() {
    let tx = tx_with(vec![
        Output { value: u64::MAX, script_pubkey: vec![] },
        Output { value: 1, script_pubkey: vec![] },
    ]);
    assert_eq!(tx.value(), Err(ContractError::Overflow));
}

#[test]
fn deposit_fees_are_the_miner_fee_times_the_factor() {
    assert_eq!(minimum_deposit_fees(100, 10, 27_000), Ok(2_700));
    assert_eq!(minimum_deposit_fees(316, 55, 10_000), Ok(316 * 55));
    // 7 * 3 * 12 345 = 259 245, of which the ten-thousandth part is 25.
    assert_eq!(minimum_deposit_fees(7, 3, 12_345), Ok(25));
    assert_eq!(minimum_deposit_fees(1, 1, 9_999), Ok(0));
}

#[test]
fn deposit_fees_must_fit_before_the_division() {
    assert_eq!(minimum_deposit_fees(u64::MAX, 1, 1), Ok(u64::MAX / 10_000));
    assert_eq!(minimum_deposit_fees(u64::MAX, 2, 1), Err(ContractError::Overflow));
    assert_eq!(minimum_deposit_fees(1 << 32, 1 << 31, 2), Err(ContractError::Overflow));
    assert_eq!(minimum_deposit_fees(1 << 32, 1 << 30, 2), Ok((1 << 63) / 10_000));
    // Nothing is charged at the rate zero, whatever the size.
    assert_eq!(minimum_deposit_fees(u64::MAX, 0, u64::MAX), Ok(0));
    assert_eq!(minimum_deposit_fees(u64::MAX, u64::MAX, 0), Ok(0));
    assert_eq!(minimum_deposit_fees(0, u64::MAX, u64::MAX), Ok(0));
}

#[test]
fn withdrawal_fees_count_the_output() {
    // A script of 22 bytes makes an output of 31 bytes.
    assert_eq!(minimum_withdrawal_fees(22, 10, 27_000), Ok(837));
    assert_eq!(minimum_withdrawal_fees(0, 1, 10_000), Ok(9));
    assert_eq!(minimum_withdrawal_fees(u64::MAX, 1, 1), Err(ContractError::Overflow));
    assert_eq!(minimum_withdrawal_fees(u64::MAX - 9, 1, 1), Ok(u64::MAX / 10_000));
    assert_eq!(minimum_withdrawal_fees(u64::MAX, 0, 1), Ok(0));
}

/// Whether an output of `value` with this script stays when a fee of 10 is
/// deducted from it alone: it does if it holds more than 10 beyond its dust
/// value.
fn stays(script: &[u8], value: u64) -> bool {
    let mut tx = tx_with(vec![Output { value, script_pubkey: script.to_vec() }]);
    assert_eq!(tx.deduct_fee(10), Ok(()));
    if tx.output.is_empty() {
        false
    } else {
        assert_eq!(values(&tx), vec![value - 10]);
        true
    }
}

fn assert_dust_value(script: &[u8], dust: u64) {
    assert!(!stays(script, dust + 10));
    assert!(stays(script, dust + 11));
}

#[test]
fn dust_value_goes_by_the_kind_of_script() {
    // Witness programs: 3 * (67 + 8 + 1 + length).
    assert_dust_value(&witness_script(7), 330);
    let mut key_hash = vec![0x00, 0x14];
    key_hash.extend_from_slice(&[7; 20]);
    assert_dust_value(&key_hash, 294);
    let mut taproot = vec![0x51, 0x20];
    taproot.extend_from_slice(&[7; 32]);
    assert_dust_value(&taproot, 330);
    let mut last_version = vec![0x60, 0x02];
    last_version.extend_from_slice(&[7; 2]);
    assert_dust_value(&last_version, 3 * (67 + 8 + 1 + 4));
    // Other scripts: 3 * (148 + 8 + 1 + length).
    let mut pay_to_key_hash = vec![0x76, 0xa9, 0x14];
    pay_to_key_hash.extend_from_slice(&[7; 20]);
    pay_to_key_hash.extend_from_slice(&[0x88, 0xac]);
    assert_dust_value(&pay_to_key_hash, 546);
    assert_dust_value(&[], 471);
    // What pushes another length than is there is no witness program, nor
    // what starts with another opcode than a version, nor what is too short.
    let mut short = vec![0x00, 0x14];
    short.extend_from_slice(&[7; 19]);
    assert_dust_value(&short, 3 * (148 + 8 + 1 + 21));
    let mut no_version = vec![0x61, 0x20];
    no_version.extend_from_slice(&[7; 32]);
    assert_dust_value(&no_version, 3 * (148 + 8 + 1 + 34));
    assert_dust_value(&[0x00, 0x01, 0x07], 3 * (148 + 8 + 1 + 3));
    let mut long = vec![0x00, 0x29];
    long.extend_from_slice(&[7; 41]);
    assert_dust_value(&long, 3 * (148 + 8 + 1 + 43));
}

#[test]
fn dust_value_counts_the_length_prefix() {
    assert_dust_value(&[0x51; 252], 3 * (148 + 8 + 1 + 252));
    assert_dust_value(&[0x51; 253], 3 * (148 + 8 + 3 + 253));
    assert_dust_value(&vec![0x51; 0x1_0000], 3 * (148 + 8 + 5 + 0x1_0000));
}

#[test]
fn dust_value_behind_op_return_is_nothing() {
    assert_dust_value(&[0x6a], 0);
    assert_dust_value(&data_script(), 0);
    let mut long = vec![0x6a, 0x28];
    long.extend_from_slice(&[7; 40]);
    assert_dust_value(&long, 0);
}
