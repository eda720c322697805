use softraster::tileflags::TileFlags;

#[test]
fn flag_constants_have_their_bits() {
    assert_eq!(TileFlags::none().bits(), 0);
    assert_eq!(TileFlags::collision().bits(), 1);
    assert_eq!(TileFlags::spike().bits(), 2);
    assert_eq!(TileFlags::red().bits(), 4);
    assert_eq!(TileFlags::green().bits(), 8);
    assert_eq!(TileFlags::blue().bits(), 16);
    assert_eq!(TileFlags::white().bits(), 28);
}

#[test]
fn flag_set_operations() {
    let solid_red = TileFlags::collision().union(TileFlags::red());
    assert_eq!(solid_red.bits(), 5);
    assert!(solid_red.contains(TileFlags::collision()));
    assert!(!solid_red.contains(TileFlags::spike()));
    assert!(solid_red.contains(TileFlags::none()));
    assert!(solid_red.intersects(TileFlags::white()));
    assert!(!solid_red.intersects(TileFlags::green()));
    assert!(solid_red.is_colored());
    assert!(!TileFlags::collision().is_colored());
    assert!(TileFlags::empty().is_empty());
    assert!(!solid_red.is_empty());
    assert_eq!(TileFlags::empty(), TileFlags::none());
    assert_eq!(TileFlags::from_bits_truncate(0xffff_ffff).bits(), 0x1f);
}
