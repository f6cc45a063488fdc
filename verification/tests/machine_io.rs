use satisfactory_planner::game::{Fluid, MachineIO, ResourceValuePair};

#[test]
fn machineio_display() {
    assert_eq!(MachineIO::new(2, 2).to_string(), "[Item, Item, Fluid, Fluid]");
    assert_eq!(MachineIO::new(1, 0).to_string(), "[Item]");
    assert_eq!(MachineIO::new(0, 3).to_string(), "[Fluid, Fluid, Fluid]");
}

#[test]
fn machineio_display_empty() {
    assert_eq!(MachineIO::new(0, 0).to_string(), "[]");
}

#[test]
fn machineio_from() {
    let iron_plate = 0;
    let iron_rod = 1;
    assert_eq!(
        MachineIO::from(&vec![
            ResourceValuePair::for_item(iron_plate, 2.0),
            ResourceValuePair::for_item(iron_rod, 3.0),
            ResourceValuePair::for_fluid(Fluid::Water, 4.0),
            ResourceValuePair::for_fluid(Fluid::SulfuricAcid, 4.0),
        ]),
        MachineIO::new(2, 2)
    );

    assert_eq!(
        MachineIO::from(&vec![
            ResourceValuePair::for_item(iron_plate, 2.0),
            ResourceValuePair::for_item(iron_rod, 3.0)
        ]),
        MachineIO::new(2, 0)
    );

    assert_eq!(
        MachineIO::from(&vec![
            ResourceValuePair::for_fluid(Fluid::Water, 4.0),
            ResourceValuePair::for_fluid(Fluid::SulfuricAcid, 4.0),
        ]),
        MachineIO::new(0, 2)
    );
}

#[test]
fn machineio_zero() {
    assert_eq!(MachineIO::new(0, 0), MachineIO::zero());
}

#[test]
fn machineio_total() {
    assert_eq!(MachineIO::new(2, 1).total(), 3);
    assert_eq!(MachineIO::new(2, 0).total(), 2);
    assert_eq!(MachineIO::new(0, 3).total(), 3);
    assert_eq!(MachineIO::new(0, 0).total(), 0);
}

#[test]
fn machineio_is_empty() {
    assert!(!MachineIO::new(2, 1).is_zero());
    assert!(!MachineIO::new(2, 0).is_zero());
    assert!(!MachineIO::new(3, 0).is_zero());
    assert!(MachineIO::new(0, 0).is_zero());
}

#[test]
fn machineio_is_greater() {
    assert!(!MachineIO::new(2, 0).is_greater(&MachineIO::new(2, 2)));
    assert!(!MachineIO::new(2, 1).is_greater(&MachineIO::new(2, 2)));
    assert!(!MachineIO::new(2, 2).is_greater(&MachineIO::new(2, 2)));
    assert!(MachineIO::new(2, 3).is_greater(&MachineIO::new(2, 2)));

    assert!(!MachineIO::new(0, 2).is_greater(&MachineIO::new(2, 2)));
    assert!(!MachineIO::new(1, 2).is_greater(&MachineIO::new(2, 2)));
    assert!(!MachineIO::new(2, 2).is_greater(&MachineIO::new(2, 2)));
    assert!(MachineIO::new(3, 2).is_greater(&MachineIO::new(2, 2)));

    assert!(!MachineIO::new(1, 0).is_greater(&MachineIO::new(1, 0)));
    assert!(MachineIO::new(2, 0).is_greater(&MachineIO::new(1, 0)));

    assert!(!MachineIO::new(0, 1).is_greater(&MachineIO::new(0, 1)));
    assert!(MachineIO::new(0, 2).is_greater(&MachineIO::new(0, 1)));
}

#[test]
fn machineio_never_greater_than_itself() {
    for items in 0..4u8 {
        for fluids in 0..4u8 {
            let io = MachineIO::new(items, fluids);
            assert!(!io.is_greater(&io));
        }
    }
}

#[test]
fn machine_io_counts_each_kind_up_to_its_own_limit() {
    let mut pairs = Vec::new();
    for i in 0..200usize {
        pairs.push(ResourceValuePair::for_item(i, 1.0));
        pairs.push(ResourceValuePair::for_fluid(Fluid::Water, 1.0));
    }
    assert_eq!(MachineIO::from(&pairs), MachineIO::new(200, 200));
}
