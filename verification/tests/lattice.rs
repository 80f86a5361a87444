use depub::lattice::PubKind;

#[test]
fn demote_walks_down_the_chain() {
    assert_eq!(PubKind::Pub.demote(), Some(PubKind::Crate));
    assert_eq!(PubKind::Crate.demote(), Some(PubKind::Super));
    assert_eq!(PubKind::Super.demote(), Some(PubKind::Private));
    assert_eq!(PubKind::Private.demote(), None);
}

#[test]
fn height_orders_the_lattice() {
    assert_eq!(PubKind::Pub.height(), 3);
    assert_eq!(PubKind::Crate.height(), 2);
    assert_eq!(PubKind::Super.height(), 1);
    assert_eq!(PubKind::Private.height(), 0);
    assert!(PubKind::Pub.height() > PubKind::Crate.height());
    assert!(PubKind::Crate.height() > PubKind::Super.height());
    assert!(PubKind::Super.height() > PubKind::Private.height());
}

#[test]
fn demote_lowers_height_by_one() {
    for kind in [PubKind::Pub, PubKind::Crate, PubKind::Super] {
        let lower = kind.demote().unwrap();
        assert_eq!(lower.height() + 1, kind.height());
    }
}

#[test]
fn render_gives_the_canonical_text() {
    assert_eq!(PubKind::Pub.render(), "pub ");
    assert_eq!(PubKind::Crate.render(), "pub(crate) ");
    assert_eq!(PubKind::Super.render(), "pub(super) ");
    assert_eq!(PubKind::Private.render(), "");
}
