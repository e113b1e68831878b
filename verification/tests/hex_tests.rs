use edid_seria::EdidBlock;

#[test]
fn c_array_hex_of_a_block_reads_back() {
    let block = EdidBlock::new_default();
    let text = block.raw.iter().map(|b| format!("0x{b:02X}")).collect::<Vec<_>>().join(", ");
    assert_eq!(EdidBlock::from_hex(&text).unwrap(), block);
}
