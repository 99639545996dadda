use combinator_fuzzer::model::bit_array::BitArray;

#[test]
fn simple() {
    let data = vec![0x00, 0xA0, 0x66, 0b1111_1011, 65];
    let mut ba = BitArray::new(data, None);
    assert_eq!(ba.eat(8), Some(BitArray::new(vec![0x00], None)));
    assert_eq!(ba.eat(8), Some(BitArray::new(vec![0xA0], None)));
    assert_eq!(ba, BitArray::new(vec![0x66, 0b1111_1011, 65], None));
}

#[test]
fn extend() {
    let data = vec![0x00, 0xA0, 0x66, 0b1111_1011, 65];
    let mut ba = BitArray::new(data, None);
    ba.extend(&BitArray::new(vec![0xFF], None));
    while ba.len() > 8 {
        ba.eat(8);
    }
    assert_eq!(ba, BitArray::new(vec![0xFF], None));
}

#[test]
fn bit_wise() {
    let mut ba = BitArray::new(vec![0xA9], Some(7));
    assert_eq!(ba.eat(4), Some(BitArray::new(vec![0xA0], Some(4))));
    assert_eq!(ba.len(), 3);
    ba.extend(&BitArray::new(vec![0x7F], Some(2)));
    assert_eq!(ba.len(), 5);
    ba.extend(&BitArray::new(vec![0x0F], Some(8)));
    assert_eq!(ba.len(), 13);
    let x = 11;
    assert_eq!(ba.eat(x), Some(BitArray::new(vec![0x88, 0x60], Some(x))));
    assert_eq!(ba.len(), 2);
    assert_eq!(ba, BitArray::new(vec![0b1100_0000], Some(2)));
    assert_eq!(ba.eat(3), None);
}

#[test]
fn perf() {
    let iterations = 1000 * 1000;
    let mut ba = BitArray::new(vec![0xA9], None);
    for _i in 0..iterations {
        ba.extend(&BitArray::new(vec![0x7B], None));
    }
    assert_eq!(ba.eat(8), Some(BitArray::new(vec![0xA9], None)));
    for _i in 0..iterations {
        assert_eq!(ba.eat(8), Some(BitArray::new(vec![0x7B], None)));
    }
    assert_eq!(ba.eat(1), None);
    assert_eq!(ba, BitArray::new(vec![], None));
}

#[test]
fn perf_bit_wise() {
    let iterations = 1000 * 1000;
    let mut ba = BitArray::new(vec![0xA9], Some(7));
    for _i in 0..iterations {
        ba.extend(&BitArray::new(vec![0x7F], Some(2)));
    }
    assert_eq!(ba.eat(7), Some(BitArray::new(vec![0xA8], Some(7))));
    for _i in 0..iterations {
        assert_eq!(ba.eat(2), Some(BitArray::new(vec![0b0100_0000], Some(2))));
    }
    assert_eq!(ba.eat(1), None);
    assert_eq!(ba, BitArray::new(vec![], None));
}
