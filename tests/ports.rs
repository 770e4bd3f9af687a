use synth::ports::{
    same_port, PortDirection, PortHandle, PortManagerError, PortManagerImpl, PortName,
};

#[test]
fn test_set_get() {
    let mut manager: PortManagerImpl<f32> = PortManagerImpl::new();
    let port = manager
        .register_output_port(&PortName::new("test", "out"))
        .unwrap();

    let expected = 10.0;
    manager.set_port_value(&port, expected);
    let res = manager.get_port_value(&port);

    assert!(expected == res);
}

#[test]
fn test_connect() {
    let mut manager: PortManagerImpl<f32> = PortManagerImpl::new();
    let port1 = manager
        .register_output_port(&PortName::new("test", "out"))
        .unwrap();
    let port2 = manager
        .register_input_port(&PortName::new("test", "in"))
        .unwrap();

    manager.connect(&port1, &port2);

    let expected = 10.0;
    manager.set_port_value(&port1, expected);

    assert!(manager.get_port_value(&port1) == expected);
    assert!(manager.get_port_value(&port2) == expected);
}

#[test]
fn test_duplicate_port1() {
    let mut manager: PortManagerImpl<f32> = PortManagerImpl::new();
    let port1 = manager.register_output_port(&PortName::new("test", "name"));
    let port2 = manager.register_output_port(&PortName::new("test", "name"));

    assert!(port1.is_ok());
    assert!(port2.is_err());
}

#[test]
fn test_duplicate_port2() {
    let mut manager: PortManagerImpl<f32> = PortManagerImpl::new();
    let port1 = manager.register_input_port(&PortName::new("test", "name"));
    let port2 = manager.register_input_port(&PortName::new("test", "name"));

    assert!(port1.is_ok());
    assert!(port2.is_err());
}

#[test]
fn test_duplicate_port3() {
    let mut manager: PortManagerImpl<f32> = PortManagerImpl::new();
    let port1 = manager.register_input_port(&PortName::new("test", "name"));
    let port2 = manager.register_output_port(&PortName::new("test", "name"));

    assert!(port1.is_ok());
    assert!(port2.is_err());
}

#[test]
fn test_disconnect() {
    let mut manager: PortManagerImpl<f32> = PortManagerImpl::new();
    let port1 = manager
        .register_output_port(&PortName::new("test", "out"))
        .unwrap();
    let port2 = manager
        .register_input_port(&PortName::new("test", "in"))
        .unwrap();

    manager.connect(&port1, &port2);
    manager.disconnect(&port1, &port2);

    manager.set_port_value(&port1, 10.0);
    assert!(manager.get_port_value(&port2) != 10.0);
}

#[test]
fn test_find1() {
    let p = PortName::new("test", "out");
    let mut manager: PortManagerImpl<f32> = PortManagerImpl::new();
    let port1 = manager.register_output_port(&p).unwrap();

    let also_port1 = manager.find_port(&p);
    assert!(also_port1.is_some());

    let also_port1 = also_port1.unwrap().promote_to_output();
    assert!(also_port1.is_ok());

    let also_port1 = also_port1.unwrap();
    assert!(port1 == also_port1);
}

#[test]
fn test_find2() {
    let p = PortName::new("test", "out");

    let mut manager: PortManagerImpl<f32> = PortManagerImpl::new();
    let port1 = manager.register_input_port(&p).unwrap();

    let also_port1 = manager.find_port(&p);
    assert!(also_port1.is_some());

    let also_port1 = also_port1.unwrap().promote_to_input();
    assert!(also_port1.is_ok());

    let also_port1 = also_port1.unwrap();
    assert!(port1 == also_port1);
}

#[test]
fn test_bad_promote() {
    let p = PortName::new("test", "out");
    let mut manager: PortManagerImpl<f32> = PortManagerImpl::new();
    manager.register_output_port(&p).unwrap();

    let port1 = manager.find_port(&p);
    assert!(port1.is_some());

    let port1 = port1.unwrap().promote_to_input();
    assert!(port1.is_err());
}

#[test]
fn test_connect_by_name() {
    let i = PortName::new("test", "out");
    let o = PortName::new("test", "in");

    let mut manager: PortManagerImpl<f32> = PortManagerImpl::new();
    let port1 = manager.register_output_port(&i).unwrap();
    let port2 = manager.register_input_port(&o).unwrap();

    let connected = manager.connect_by_name(&i, &o);
    assert!(connected.is_ok());

    let expected = 10.0;
    manager.set_port_value(&port1, expected);

    assert!(manager.get_port_value(&port1) == expected);
    assert!(manager.get_port_value(&port2) == expected);
}

#[test]
fn test_connect_by_name_fail1() {
    let out = PortName::new("test", "out");

    let mut manager: PortManagerImpl<f32> = PortManagerImpl::new();
    manager.register_output_port(&out).unwrap();
    manager
        .register_input_port(&PortName::new("test", "in"))
        .unwrap();

    let bad = PortName::new("test", "dne");
    let connected = manager.connect_by_name(&out, &bad);
    assert!(connected.unwrap_err() == PortManagerError::NoSuchPort(bad));
}

#[test]
fn test_connect_by_name_fail2() {
    let n1 = PortName::new("test", "in1");
    let n2 = PortName::new("test", "in2");

    let mut manager: PortManagerImpl<f32> = PortManagerImpl::new();
    manager.register_input_port(&n1).unwrap();
    manager.register_input_port(&n2).unwrap();

    let connected = manager.connect_by_name(&n1, &n2);
    assert!(connected.unwrap_err() == PortManagerError::NotOutputPort);
}

#[test]
fn test_connect_by_name_fail3() {
    let n1 = PortName::new("test", "p1");
    let n2 = PortName::new("test", &"p2".to_string());

    let mut manager: PortManagerImpl<f32> = PortManagerImpl::new();
    manager.register_output_port(&n1).unwrap();
    manager.register_output_port(&n2).unwrap();

    let connected = manager.connect_by_name(&n1, &n2);
    assert!(connected.unwrap_err() == PortManagerError::NotInputPort);
}

#[test]
fn connect_by_name_missing_first_port() {
    let mut manager: PortManagerImpl<f32> = PortManagerImpl::new();
    manager
        .register_input_port(&PortName::new("test", "in"))
        .unwrap();
    let bad = PortName::new("nowhere", "out");
    let res = manager.connect_by_name(&bad, &PortName::new("test", "in"));
    assert!(res.unwrap_err() == PortManagerError::NoSuchPort(bad));
}

#[test]
fn port_names_are_accepted_once() {
    let mut manager: PortManagerImpl<f32> = PortManagerImpl::new();
    let a = PortName::new("osc", "out");
    let b = PortName::new("osc", "in");
    let c = PortName::new("filter", "out");
    assert!(manager.register_output_port(&a).is_ok());
    assert!(manager.register_input_port(&b).is_ok());
    assert!(manager.register_output_port(&c).is_ok());
    for _ in 0..3 {
        assert!(manager.register_output_port(&a).unwrap_err() == PortManagerError::PortsNotUnique);
        assert!(manager.register_input_port(&a).unwrap_err() == PortManagerError::PortsNotUnique);
        assert!(manager.register_input_port(&b).is_err());
        assert!(manager.register_output_port(&c).is_err());
    }
    assert!(manager.register_input_port(&PortName::new("filter", "in")).is_ok());
}

#[test]
fn set_value_reaches_every_connected_input() {
    let mut manager: PortManagerImpl<f32> = PortManagerImpl::new();
    let out = manager.register_output_port(&PortName::new("a", "out")).unwrap();
    let other = manager.register_output_port(&PortName::new("a", "other")).unwrap();
    let in1 = manager.register_input_port(&PortName::new("b", "in")).unwrap();
    let in2 = manager.register_input_port(&PortName::new("c", "in")).unwrap();
    let in3 = manager.register_input_port(&PortName::new("d", "in")).unwrap();
    manager.connect(&out, &in1);
    manager.connect(&out, &in2);
    manager.connect(&out, &in2);
    manager.connect(&other, &in3);
    manager.set_port_value(&out, 0.25);
    assert_eq!(manager.get_port_value(&in1), 0.25);
    assert_eq!(manager.get_port_value(&in2), 0.25);
    assert_eq!(manager.get_port_value(&in3), 0.0);
    assert_eq!(manager.get_port_value(&other), 0.0);
}

#[test]
fn disconnect_keeps_previous_value_and_other_connections() {
    let mut manager: PortManagerImpl<f32> = PortManagerImpl::new();
    let out = manager.register_output_port(&PortName::new("a", "out")).unwrap();
    let other = manager.register_output_port(&PortName::new("a", "other")).unwrap();
    let in1 = manager.register_input_port(&PortName::new("b", "in")).unwrap();
    let in2 = manager.register_input_port(&PortName::new("c", "in")).unwrap();
    manager.connect(&out, &in1);
    manager.connect(&out, &in1);
    manager.connect(&out, &in2);
    manager.connect(&other, &in1);
    manager.set_port_value(&out, 3.0);
    manager.disconnect(&out, &in1);
    manager.set_port_value(&out, 5.0);
    assert_eq!(manager.get_port_value(&in1), 3.0);
    assert_eq!(manager.get_port_value(&in2), 5.0);
    manager.set_port_value(&other, 7.0);
    assert_eq!(manager.get_port_value(&in1), 7.0);
}

#[test]
fn handles_compare_by_port_and_direction() {
    let mut manager: PortManagerImpl<f32> = PortManagerImpl::new();
    let out = manager.register_output_port(&PortName::new("a", "out")).unwrap();
    let inp = manager.register_input_port(&PortName::new("a", "in")).unwrap();
    let found = manager.find_port(&PortName::new("a", "out")).unwrap();
    assert!(same_port(&found, &out));
    assert!(!same_port(&found, &inp));
    assert_eq!(found.direction(), PortDirection::Output);
    assert_eq!(inp.direction(), PortDirection::Input);
    assert_eq!(found.id(), out.id());
    assert!(manager.find_port(&PortName::new("a", "nothing")).is_none());
}

#[test]
fn port_name_parts() {
    let n = PortName::new("comp", "port");
    assert_eq!(n.component(), "comp");
    assert_eq!(n.port(), "port");
    assert_eq!(n.duplicate(), n);
}

#[test]
fn adjacency_of_components_in_registration_order() {
    let mut manager: PortManagerImpl<f32> = PortManagerImpl::new();
    let v_out = manager.register_output_port(&PortName::new("voice", "out")).unwrap();
    let v_in = manager.register_input_port(&PortName::new("voice", "in")).unwrap();
    let s_in = manager.register_input_port(&PortName::new("sine", "in")).unwrap();
    let s_out = manager.register_output_port(&PortName::new("sine", "out")).unwrap();
    let g_in = manager.register_input_port(&PortName::new("gate", "in")).unwrap();
    let _g_out = manager.register_output_port(&PortName::new("gate", "out")).unwrap();
    manager.connect(&v_out, &s_in);
    manager.connect(&s_out, &g_in);
    manager.connect(&s_out, &v_in);
    let (names, adj) = manager.get_component_adjacency_matrix();
    assert_eq!(names, vec!["voice".to_string(), "sine".to_string(), "gate".to_string()]);
    assert_eq!(adj.dim(), (3, 3));
    let expected = [
        [false, true, false],
        [true, false, true],
        [false, false, false],
    ];
    for i in 0..3 {
        for j in 0..3 {
            assert_eq!(*adj.get((i, j)), expected[i][j]);
        }
    }
}
