use constellation::resources::Resources;
use constellation::units::{Cpu, Mem};

#[test]
fn parse_mem_size_test() {
    assert_eq!(Mem::from_str(""), Err(()));
    assert_eq!(
        Mem::from_str("1.500000001GiB"),
        Ok(Mem(1024_u64.pow(3) * 3 / 2 + 1))
    );
    assert_eq!(
        Mem::from_str("1.9999999999GiB"),
        Ok(Mem(2 * 1024_u64.pow(3) - 1))
    );
    assert_eq!(
        Mem::from_str("1.999999999GiB"),
        Ok(Mem(2 * 1024_u64.pow(3) - 2))
    );
    assert_eq!(Mem::from_str("1.000000000GiB"), Ok(Mem(1024_u64.pow(3))));
    assert_eq!(Mem::from_str("1.0000000001GiB"), Ok(Mem(1024_u64.pow(3))));
    assert_eq!(
        Mem::from_str("1.000000001GiB"),
        Ok(Mem(1024_u64.pow(3) + 1))
    );
    for i in 0..100_000 {
        assert_eq!(Mem::from_str(&i.to_string()), Ok(Mem(i)));
    }
    for i in 0..100_000 {
        assert_eq!(Mem::from_str(&format!("{}B", i)), Ok(Mem(i)));
    }
    for i in 0..100_000 {
        assert_eq!(
            Mem::from_str(&format!("{}TiB", i)),
            Ok(Mem(i * 1024_u64.pow(4)))
        );
    }
    for i in 0..1000 {
        assert_eq!(
            Mem::from_str(&format!("1.{:03}KiB", i)),
            Ok(Mem(1024_u64.pow(1) + i * 1024_u64.pow(1) / 1000))
        );
    }
    for i in 0..1000 {
        assert_eq!(
            Mem::from_str(&format!("1.{:03}GiB", i)),
            Ok(Mem(1024_u64.pow(3) + i * 1024_u64.pow(3) / 1000))
        );
    }
}

#[test]
fn parse_cpu_size_test() {
    assert_eq!(Cpu::from_str("123"), Ok(Cpu(123 * 65536)));
    assert_eq!(Cpu::from_str("123.5"), Ok(Cpu(247 * 65536 / 2)));
    assert_eq!(Cpu::from_str("123.25"), Ok(Cpu(493 * 65536 / 4)));
    assert_eq!(Cpu::from_str("123.25"), Ok(Cpu(493 * 65536 / 4)));
    assert_eq!(Cpu::from_str("0.0000152587890625"), Ok(Cpu(1)));
    assert_eq!(Cpu::from_str("0.0000152587890624"), Ok(Cpu(0)));
    assert_eq!(Cpu::from_str("0.0000152587890626"), Ok(Cpu(1)));
    assert_eq!(
        Cpu::from_str("65535.0000152587890625"),
        Ok(Cpu(65535 * 65536 + 1))
    );
    assert_eq!(
        Cpu::from_str("65535.0000152587890624"),
        Ok(Cpu(65535 * 65536))
    );
    assert_eq!(
        Cpu::from_str("65535.0000152587890626"),
        Ok(Cpu(65535 * 65536 + 1))
    );
}

#[test]
fn memory_reads_back() {
    for n in [0u64, 1, 9, 10, 1023, 123_456_789, u64::MAX] {
        let text = Mem(n).to_string();
        assert_eq!(text, format!("{}B", n));
        assert_eq!(Mem::try_read(&text), Some(Ok(Mem(n))));
    }
}

#[test]
fn memory_that_makes_no_sense() {
    assert_eq!(Mem::try_read("12furlongs"), Some(Err(())));
    assert_eq!(Mem::try_read("18446744073709551615EiB"), None);
}

#[test]
fn processors_by_number() {
    assert_eq!(Cpu::visit_u64(2), Some(Cpu(2 * Cpu::CORE)));
    assert_eq!(Cpu::visit_i64(3), Some(Cpu(3 * Cpu::CORE)));
}

#[test]
fn sizes_are_added_and_scaled() {
    assert_eq!(Mem(3) + Mem(4), Mem(7));
    assert_eq!(Mem(9) - Mem(4), Mem(5));
    assert_eq!(Mem(9) * 5, Mem(45));
    assert_eq!(Mem(9) / 2, Mem(4));
    assert_eq!(Cpu(3) + Cpu(4), Cpu(7));
    assert_eq!(Cpu(9) - Cpu(4), Cpu(5));
    assert_eq!(Cpu(9) * 5, Cpu(45));
    assert_eq!(Cpu(9) / 2, Cpu(4));
    let mut mem = Mem(10);
    mem.add_assign(Mem(5));
    mem.sub_assign(Mem(1));
    mem.mul_assign(3);
    mem.div_assign(4);
    assert_eq!(mem, Mem(10));
    let mut cpu = Cpu(10);
    cpu.add_assign(Cpu(5));
    cpu.sub_assign(Cpu(1));
    cpu.mul_assign(3);
    cpu.div_assign(4);
    assert_eq!(cpu, Cpu(10));
}

#[test]
fn default_resources() {
    let resources = Resources::default();
    assert_eq!(resources.mem, Mem(100 * Mem::MIB));
    assert_eq!(resources.cpu, Cpu(Cpu::CORE / 16));
}
