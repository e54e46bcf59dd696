use web_player::ac3::bitstream::BitReader;

#[test]
fn read_basic() {
    let data = [0b10110011, 0b01010101];
    let mut br = BitReader::new(&data);
    assert_eq!(br.read(4), 0b1011);
    assert_eq!(br.read(4), 0b0011);
    assert_eq!(br.read(8), 0b01010101);
}

#[test]
fn read_cross_byte() {
    let data = [0b11001100, 0b10101010];
    let mut br = BitReader::new(&data);
    assert_eq!(br.read(3), 0b110);
    assert_eq!(br.read(6), 0b011001);
    assert_eq!(br.read(7), 0b0101010);
}

#[test]
fn read_signed_positive() {
    // 5 bits: 01010 = 10 (positive)
    let data = [0b01010_000];
    let mut br = BitReader::new(&data);
    assert_eq!(br.read_signed(5), 10);
}

#[test]
fn read_signed_negative() {
    // 5 bits: 11110 = -2 in two's complement
    let data = [0b11110_000];
    let mut br = BitReader::new(&data);
    assert_eq!(br.read_signed(5), -2);
}

#[test]
fn read_signed_minus_one() {
    // 5 bits: 11111 = -1
    let data = [0b11111_000];
    let mut br = BitReader::new(&data);
    assert_eq!(br.read_signed(5), -1);
}

#[test]
fn read_bool_and_skip() {
    let data = [0b10000000];
    let mut br = BitReader::new(&data);
    assert!(br.read_bool());
    assert!(!br.read_bool());
    br.skip(6);
    assert_eq!(br.position(), 8);
}

#[test]
fn align_moves_to_the_next_byte() {
    let data = [0xFF, 0x55];
    let mut br = BitReader::new(&data);
    br.align();
    assert_eq!(br.position(), 0);
    br.skip(3);
    br.align();
    assert_eq!(br.position(), 8);
    assert_eq!(br.read(8), 0x55);
}
