use n2t::channel_range::ChannelRange;
use n2t::clock_behavior::ClockBehavior;
use n2t::model::chip::bits::Bits;
use n2t::model::chip::builtin::{nand, Nand};
use n2t::model::chip::native::{Barrier, Hook, NativeChip, Router};
use n2t::model::chip::builder::Registration;
use n2t::model::chip::{ChipBuilder, ChipModel, Id, ModelConstructionError};
use n2t::model::parser::connection::{
    args, args_checked, bus_range, bus_range_checked, connection, connection_checked, single_arg, single_arg_checked,
    symbol_bus, symbol_bus_checked, Reading,
};
use n2t::model::parser::interface::{widths_fit, ChannelPin, Interface};
use n2t::model::parser::{Argument, Builtin, Channel, Chip, Connection, Form, Symbol, Value};
use std::collections::VecDeque;

fn pin(iface: &Interface, name: &str) -> ChannelPin {
    iface.map.iter().find(|(n, _)| n == name).map(|(_, p)| *p).unwrap()
}

fn channel(name: &str, size: Option<u16>) -> Channel {
    Channel { name: name.to_string(), size }
}

fn and16() -> Chip {
    Chip {
        name: "And16".to_string(),
        in_pins: vec![channel("a", Some(16)), channel("b", Some(16))],
        out_pins: vec![channel("out", Some(16))],
        logic: Form::Native(vec![]),
    }
}

fn dff() -> Chip {
    Chip {
        name: "DFF".to_string(),
        in_pins: vec![channel("in", None)],
        out_pins: vec![channel("out", None)],
        logic: Form::Builtin(Builtin { name: "DFF".to_string(), clocked: Some(vec!["in".to_string()]) }),
    }
}

fn example() -> Chip {
    Chip {
        name: "test".to_string(),
        in_pins: vec![channel("a", Some(2)), channel("b", Some(2)), channel("c", Some(3))],
        out_pins: vec![channel("d", None)],
        logic: Form::Builtin(Builtin {
            name: "bruh".to_string(),
            clocked: Some(vec!["b".to_string(), "c".to_string()]),
        }),
    }
}

#[test]
fn test_gen_interface() {
    let com_chip = and16().interface();
    assert_eq!(com_chip.name, "And16");
    assert!(matches!(pin(&com_chip, "a"), ChannelPin::ComIn(range) if range.size() == 16));
    assert!(matches!(pin(&com_chip, "b"), ChannelPin::ComIn(range) if range.size() == 16));
    assert!(matches!(pin(&com_chip, "out"), ChannelPin::ComOut(range) if range.size() == 16));

    let seq_chip = dff().interface();
    assert_eq!(seq_chip.name, "DFF");
    assert!(matches!(pin(&seq_chip, "in"), ChannelPin::SeqIn(range) if range.size() == 1));
    assert!(matches!(pin(&seq_chip, "out"), ChannelPin::ComOut(range) if range.size() == 1));

    let example_chip = example().interface();
    assert_eq!(example_chip.name, "test");
    assert!(matches!(pin(&example_chip, "a"), ChannelPin::ComIn(range) if range.size() == 2));
    assert!(matches!(pin(&example_chip, "b"), ChannelPin::SeqIn(range) if range.size() == 2));
    assert!(matches!(pin(&example_chip, "c"), ChannelPin::SeqIn(range) if range.size() == 3));
    assert!(matches!(pin(&example_chip, "d"), ChannelPin::ComOut(range) if range.size() == 1));
}

#[test]
fn test_real_range() {
    let com_chip = and16();
    assert_eq!(
        com_chip.interface().real_range("b", Some(&ChannelRange::new(0, 7))),
        Ok(ChannelRange::new(16, 23))
    );
    assert_eq!(com_chip.interface().real_range("b", None), Ok(ChannelRange::new(16, 31)))
}

#[test]
fn interface_queries() {
    let i = example().interface();
    assert_eq!(i.size_in(), 7);
    assert_eq!(i.size_out(), 1);
    assert!(i.is_input("b"));
    assert!(!i.is_input("d"));
    assert!(i.has_clocked());
    assert!(!and16().interface().has_clocked());
    assert_eq!(i.clocked("a"), ClockBehavior::Combinatorial);
    assert_eq!(i.clocked("c"), ClockBehavior::Sequential);
    assert_eq!(i.iter_inputs().len(), 3);
    assert_eq!(i.iter_outputs().len(), 1);
    assert_eq!(i.iter_all().len(), 4);
    assert_eq!(i.iter_sequential().len(), 2);
    assert_eq!(i.iter_combinatorial().len(), 2);
    assert_eq!(i.real_range("c", None), Ok(ChannelRange::new(4, 6)));
    assert_eq!(i.real_range("c", Some(&ChannelRange::new(0, 5))), Err(()));
    assert_eq!(i.real_range("zz", None), Err(()));
    assert_eq!(pin(&i, "c").unwrap(), ChannelRange::new(4, 6));
}

#[test]
fn test_bus_range() {
    let test = |res: (String, ChannelRange), excess: &str, bus| {
        assert_eq!(res.0, excess);
        assert_eq!(res.1, bus);
    };

    test(bus_range("[0..1]").unwrap(), "", ChannelRange::new(0, 1));
    test(bus_range("[5..10]").unwrap(), "", ChannelRange::new(5, 10));
    test(bus_range("[5..10] and").unwrap(), "and", ChannelRange::new(5, 10));
    test(bus_range("[   5   ..  10       ] and").unwrap(), "and", ChannelRange::new(5, 10));
    test(bus_range("[   5\n   ..  10       ] and").unwrap(), "and", ChannelRange::new(5, 10));
    assert!(matches!(bus_range("[ a..b]"), Err(_)));
}

#[test]
fn test_symbol_bus() {
    let test = |res: (String, (String, Option<ChannelRange>)), bus| {
        assert_eq!(res.0, "");
        assert_eq!(res.1 .0, "limo");
        assert_eq!(res.1 .1, bus);
    };

    test(symbol_bus("limo[1..10]").unwrap(), Some(ChannelRange::new(1, 10)));
    test(symbol_bus("limo   [  1  .. 10  ]").unwrap(), Some(ChannelRange::new(1, 10)));
    test(symbol_bus("limo   ").unwrap(), None);
    test(symbol_bus("limo").unwrap(), None);
}

#[test]
fn test_parse_arg() {
    let test_1 = |res: (String, Argument)| {
        assert_eq!(res.0, "");

        let Argument { internal, internal_bus, external, external_bus } = res.1;
        assert_eq!(internal_bus, None);
        assert_eq!(external_bus, None);

        assert_eq!(internal, "in");

        assert!(matches!(external, Symbol::Value(_)));
        if let Symbol::Value(x) = external {
            assert_eq!(x, Value::True);
        }
    };

    test_1(single_arg("in = true").unwrap());
    test_1(single_arg("in\n=\ntrue").unwrap());
    test_1(single_arg("in=true").unwrap());

    let test_2 = |res: (String, Argument), excess: &str, in_bus| {
        assert_eq!(res.0, excess);

        let Argument { internal, internal_bus, external, external_bus } = res.1;
        assert_eq!(internal_bus, in_bus);
        assert_eq!(external_bus, None);

        assert_eq!(internal, "in");

        assert!(matches!(external, Symbol::Value(_)));
        if let Symbol::Value(x) = external {
            assert_eq!(x, Value::True);
        }
    };

    test_2(single_arg("in=true, out=false").unwrap(), "out=false", None);
    test_2(single_arg("in[3..4]=true)").unwrap(), ")", Some(ChannelRange::new(3, 4)));
    test_2(single_arg("in[3]=true)").unwrap(), ")", Some(ChannelRange::new(3, 3)));

    let test_3 = |res: (String, Argument), excess: &str, in_bus, ex_bus, int: &str, ext: &str| {
        assert_eq!(res.0, excess);

        let Argument { internal, internal_bus, external, external_bus } = res.1;
        assert_eq!(internal_bus, in_bus);
        assert_eq!(external_bus, ex_bus);

        assert_eq!(internal, int);

        assert!(matches!(external, Symbol::Name(_)));
        if let Symbol::Name(x) = external {
            assert_eq!(x, ext);
        }
    };

    test_3(
        single_arg("in[3]=out[4])").unwrap(),
        ")",
        Some(ChannelRange::new(3, 3)),
        Some(ChannelRange::new(4, 4)),
        "in",
        "out",
    );
    test_3(
        single_arg("a[9..10]=b[5..10]").unwrap(),
        "",
        Some(ChannelRange::new(9, 10)),
        Some(ChannelRange::new(5, 10)),
        "a",
        "b",
    );

    {
        let res = single_arg("in[3..4]=true, out=false").unwrap();
        assert_eq!(res.0, "out=false");

        let Argument { internal, internal_bus, external, external_bus } = res.1;
        assert_eq!(internal_bus, Some(ChannelRange::new(3, 4)));
        assert_eq!(external_bus, None);

        assert_eq!(internal, "in");

        assert!(matches!(external, Symbol::Value(_)));
        if let Symbol::Value(x) = external {
            assert_eq!(x, Value::True);
        }
    }
}

#[test]
fn test_parse_args() {
    let res = args("(in=ax, out=bruh)").unwrap();
    assert_eq!(res.0, "");

    let Argument { internal, internal_bus, external, external_bus } = &res.1[0];
    assert_eq!(internal_bus, &None);
    assert_eq!(external_bus, &None);

    assert_eq!(internal, "in");

    assert!(matches!(external, &Symbol::Name(_)));
    if let Symbol::Name(x) = external {
        assert_eq!(x, "ax");
    }

    let Argument { internal, internal_bus, external, external_bus } = &res.1[1];
    assert_eq!(internal_bus, &None);
    assert_eq!(external_bus, &None);

    assert_eq!(internal, "out");

    assert!(matches!(external, &Symbol::Name(_)));
    if let Symbol::Name(x) = external {
        assert_eq!(x, "bruh");
    }

    let err = args("(in=a,");
    assert!(matches!(err, Err(_)))
}

#[test]
fn test_parse_connection() {
    let res = connection(
        "  \n Nand (a\n[3\n..4]    =\n2, b\n[1..10]\n=  \nfalse, out=foo[6  .. 9]) ;\n  \n ",
    )
    .unwrap();

    assert_eq!(res.0, "");

    let Connection { chip_name, inputs } = res.1;

    assert_eq!(chip_name, "Nand");

    let Argument { internal, internal_bus, external, external_bus } = &inputs[0];
    assert_eq!(internal_bus, &Some(ChannelRange::new(3, 4)));
    assert_eq!(external_bus, &None);

    assert_eq!(internal, "a");

    assert!(matches!(external, &Symbol::Number(_)));
    if let &Symbol::Number(x) = external {
        assert_eq!(x, 2);
    }

    let Argument { internal, internal_bus, external, external_bus } = &inputs[1];
    assert_eq!(internal_bus, &Some(ChannelRange::new(1, 10)));
    assert_eq!(external_bus, &None);

    assert_eq!(internal, "b");

    assert!(matches!(external, &Symbol::Value(_)));
    if let Symbol::Value(x) = external {
        assert_eq!(x, &Value::False);
    }

    let Argument { internal, internal_bus, external, external_bus } = &inputs[2];
    assert_eq!(internal_bus, &None);
    assert_eq!(external_bus, &Some(ChannelRange::new(6, 9)));

    assert_eq!(internal, "out");

    assert!(matches!(external, &Symbol::Name(_)));
    if let Symbol::Name(x) = external {
        assert_eq!(x, "foo");
    }
}

#[test]
fn bad_symbol_is_refused() {
    assert!(single_arg("in=2x").is_err());
    assert!(single_arg("in=70000").is_err());
    assert!(connection("Nand(a=b)").is_err());
}

fn bits(v: &[bool]) -> Bits {
    Bits::from_bools(v)
}

fn bools_of_bits(b: &Bits) -> Vec<bool> {
    b.to_bools()
}

#[test]
fn builtin_nand() {
    let mut nand = Nand::new();
    assert_eq!(bools_of_bits(&nand.eval(&bits(&[false, false]))), vec![true]);
    assert_eq!(bools_of_bits(&nand.eval(&bits(&[false, true]))), vec![true]);
    assert_eq!(bools_of_bits(&nand.eval(&bits(&[true, false]))), vec![true]);
    assert_eq!(bools_of_bits(&nand.eval(&bits(&[true, true]))), vec![false]);
    assert_eq!(bools_of_bits(&nand.clock(&bits(&[false, false]))), vec![false]);
}

fn manual_not_chip() -> ChipModel {
    let mut registry = Vec::new();
    registry.push((
        Id(1),
        Barrier {
            in_buffer: bits(&[false, false]),
            intermediate: bits(&[false, false]),
            clock_mask: bits(&[true, true]),
            out_buffer: bits(&[false, false]),
            chip: ChipModel::Nand(Nand::new()),
            router: Router { map: vec![(ChannelRange::new(0, 0), Hook { id: Id(0), range: ChannelRange::new(0, 0) })] },
        },
    ));
    ChipModel::Native(NativeChip {
        registry,
        in_router: Router {
            map: vec![
                (ChannelRange::new(0, 0), Hook { id: Id(1), range: ChannelRange::new(0, 0) }),
                (ChannelRange::new(0, 0), Hook { id: Id(1), range: ChannelRange::new(1, 1) }),
            ],
        },
        out_chip: Id(0),
        out_buffer: bits(&[false]),
        request_queue: VecDeque::new(),
    })
}

#[test]
fn not() {
    let mut not = manual_not_chip();
    assert_eq!(bools_of_bits(&not.eval(&bits(&[false])).unwrap()), vec![true]);
    assert_eq!(bools_of_bits(&not.eval(&bits(&[true])).unwrap()), vec![false]);
}

fn not_description() -> Chip {
    let (_, part) = connection("Nand(a=in, b=in, out=out);").unwrap();
    Chip {
        name: "Not".to_string(),
        in_pins: vec![channel("in", None)],
        out_pins: vec![channel("out", None)],
        logic: Form::Native(vec![part]),
    }
}

#[test]
fn builder_registers_built_chips() {
    let mut builder = ChipBuilder::new();
    builder.with_builtins();
    assert!(builder.get_chip_info("Nand").is_some());
    assert!(builder.get_chip_info("Not").is_none());
    builder.register_hdl(not_description()).unwrap();
    let info = builder.get_chip_info("Not").unwrap();
    assert_eq!(info.interface.name, "Not");
    assert_eq!(builder.get_registry().len(), 2);
    match &info.chip {
        ChipModel::Native(n) => {
            assert_eq!(n.registry.len(), 1);
            assert_eq!(n.in_router.map.len(), 2);
            assert_eq!(n.registry[0].0, Id(1));
            assert_eq!(n.registry[0].1.router.map.len(), 1);
        }
        _ => panic!("a chip made of parts is native"),
    }
    assert!(matches!(
        builder.register_hdl(not_description()),
        Err(ModelConstructionError::Rebuilt(name)) if name == "Not"
    ));
}

#[test]
fn builder_reports_missing_parts() {
    let mut builder = ChipBuilder::new();
    assert!(matches!(
        builder.register_hdl(not_description()),
        Err(ModelConstructionError::Needs(names)) if names == vec!["Nand".to_string()]
    ));
}

#[test]
fn builder_reports_unknown_pin() {
    let mut builder = ChipBuilder::new();
    builder.with_builtins();
    let (_, part) = connection("Nand(x=in, b=in, out=out);").unwrap();
    let chip = Chip {
        name: "Bad".to_string(),
        in_pins: vec![channel("in", None)],
        out_pins: vec![channel("out", None)],
        logic: Form::Native(vec![part]),
    };
    assert!(matches!(
        builder.register_hdl(chip),
        Err(ModelConstructionError::PinNotFound(p, c)) if p == "x" && c == "Bad"
    ));
}

#[test]
fn builder_reports_wire_without_source() {
    let mut builder = ChipBuilder::new();
    builder.with_builtins();
    let (_, part) = connection("Nand(a=w, b=in, out=out);").unwrap();
    let chip = Chip {
        name: "Bad".to_string(),
        in_pins: vec![channel("in", None)],
        out_pins: vec![channel("out", None)],
        logic: Form::Native(vec![part]),
    };
    assert!(matches!(builder.register_hdl(chip), Err(ModelConstructionError::NoSource(w)) if w == "w"));
}

#[test]
fn builder_reports_two_sources() {
    let mut builder = ChipBuilder::new();
    builder.with_builtins();
    let (_, p1) = connection("Nand(a=in, b=in, out=w);").unwrap();
    let (_, p2) = connection("Nand(a=in, b=in, out=w);").unwrap();
    let (_, p3) = connection("Nand(a=w, b=w, out=out);").unwrap();
    let chip = Chip {
        name: "Bad".to_string(),
        in_pins: vec![channel("in", None)],
        out_pins: vec![channel("out", None)],
        logic: Form::Native(vec![p1, p2, p3]),
    };
    assert!(matches!(builder.register_hdl(chip), Err(ModelConstructionError::ConflictingSources(w)) if w == "w"));
}

#[test]
fn builder_rejects_numbers() {
    let mut builder = ChipBuilder::new();
    builder.with_builtins();
    let (_, part) = connection("Nand(a=1, b=in, out=out);").unwrap();
    let chip = Chip {
        name: "Bad".to_string(),
        in_pins: vec![channel("in", None)],
        out_pins: vec![channel("out", None)],
        logic: Form::Native(vec![part]),
    };
    assert!(matches!(builder.register_hdl(chip), Err(ModelConstructionError::ValuesNotSupported(p)) if p == "a"));
}

#[test]
fn nand_interface() {
    let info = nand();
    assert_eq!(info.interface.name, "Nand");
    assert_eq!(info.interface.size_in(), 2);
    assert_eq!(info.interface.size_out(), 1);
}

#[test]
fn value_into_bool() {
    let t: bool = Value::True.into();
    let f: bool = Value::False.into();
    assert!(t);
    assert!(!f);
}

fn described(name: &str, ins: &[(&str, Option<u16>)], outs: &[(&str, Option<u16>)], parts: &[&str]) -> Chip {
    Chip {
        name: name.to_string(),
        in_pins: ins.iter().map(|(n, s)| channel(n, *s)).collect(),
        out_pins: outs.iter().map(|(n, s)| channel(n, *s)).collect(),
        logic: Form::Native(parts.iter().map(|p| connection(p).unwrap().1).collect()),
    }
}

/// The chips of project 01 up to `DMux4Way`, registered in order of dependence.
fn hdl_01() -> ChipBuilder {
    let mut builder = ChipBuilder::new();
    builder.with_builtins();
    let chips = vec![
        described("Not", &[("in", None)], &[("out", None)], &["Nand(a=in, b=in, out=out);"]),
        described(
            "And",
            &[("a", None), ("b", None)],
            &[("out", None)],
            &["Nand(a=a, b=b, out=x);", "Not(in=x, out=out);"],
        ),
        described(
            "DMux",
            &[("in", None), ("sel", None)],
            &[("a", None), ("b", None)],
            &["Not(in=sel, out=nsel);", "And(a=in, b=nsel, out=a);", "And(a=in, b=sel, out=b);"],
        ),
        described(
            "DMux4Way",
            &[("in", None), ("sel", Some(2))],
            &[("a", None), ("b", None), ("c", None), ("d", None)],
            &[
                "DMux(in=in, sel=sel[1], a=ab, b=cd);",
                "DMux(in=ab, sel=sel[0], a=a, b=b);",
                "DMux(in=cd, sel=sel[0], a=c, b=d);",
            ],
        ),
    ];
    for chip in chips {
        builder.register_hdl(chip).unwrap();
    }
    builder
}

#[test]
fn load_step_not() {
    let builder = hdl_01();
    let mut chip = builder.get_chip_info("Not").unwrap().chip;
    assert_eq!(vec![true], bools_of_bits(&chip.eval(&bits(&[false])).unwrap()));
    assert_eq!(vec![false], bools_of_bits(&chip.eval(&bits(&[true])).unwrap()));
}

#[test]
fn load_dmux() {
    let builder = hdl_01();
    let mut dmux_4way = builder.get_chip_info("DMux4Way").unwrap().chip;
    assert_eq!(bools_of_bits(&dmux_4way.eval(&bits(&[true, false, false])).unwrap()), vec![true, false, false, false]);
    assert_eq!(bools_of_bits(&dmux_4way.eval(&bits(&[true, true, false])).unwrap()), vec![false, true, false, false]);
    assert_eq!(bools_of_bits(&dmux_4way.eval(&bits(&[true, false, true])).unwrap()), vec![false, false, true, false]);
    assert_eq!(bools_of_bits(&dmux_4way.eval(&bits(&[true, true, true])).unwrap()), vec![false, false, false, true]);
}

#[test]
fn built_parts_pass_combinatorial_inputs() {
    let builder = hdl_01();
    match builder.get_chip_info("And").unwrap().chip {
        ChipModel::Native(n) => {
            // the NAND part and the Not part each take only combinatorial inputs
            assert_eq!(bools_of_bits(&n.registry[0].1.clock_mask), vec![true, true]);
            assert_eq!(bools_of_bits(&n.registry[1].1.clock_mask), vec![true]);
        }
        _ => panic!("a chip made of parts is native"),
    }
    let mut and = builder.get_chip_info("And").unwrap().chip;
    assert_eq!(bools_of_bits(&and.eval(&bits(&[true, true])).unwrap()), vec![true]);
    assert_eq!(bools_of_bits(&and.eval(&bits(&[true, false])).unwrap()), vec![false]);
}

#[test]
fn checked_readers_report_what_the_plain_ones_refuse() {
    assert!(matches!(connection_checked("Nand(a=x[3..1], b=y);"), Reading::Aborts));
    assert!(matches!(bus_range_checked("[3..1]"), Reading::Aborts));
    match connection_checked("Nand(a=in, b=in, out=out); rest") {
        Reading::Done(rest, c) => {
            assert_eq!(rest, "rest");
            assert_eq!(c.chip_name, "Nand");
            assert_eq!(c.inputs.len(), 3);
        }
        _ => panic!("reads"),
    }
    assert!(matches!(single_arg_checked("in=2x"), Reading::Failed(_)));
    match symbol_bus_checked("sel[1], b") {
        Reading::Done(rest, (name, Some(r))) => {
            assert_eq!(rest, ", b");
            assert_eq!(name, "sel");
            assert_eq!((r.start(), r.end()), (1, 1));
        }
        _ => panic!("reads"),
    }
    assert!(matches!(args_checked("(a=b)"), Reading::Done(_, _)));
}

#[test]
fn copy_of_chip_evaluates_alike() {
    let mut source_chip = manual_not_chip();
    assert_eq!(bools_of_bits(&source_chip.eval(&bits(&[true])).unwrap()), vec![false]);
    let mut copy = source_chip.duplicate();
    assert_eq!(
        bools_of_bits(&copy.clock(&bits(&[true])).unwrap()),
        bools_of_bits(&source_chip.clock(&bits(&[true])).unwrap())
    );
    assert_eq!(bools_of_bits(&copy.eval(&bits(&[false])).unwrap()), vec![true]);
}

#[test]
fn registered_chip_is_handed_out_fresh() {
    let mut builder = ChipBuilder::new();
    builder.with_builtins();
    let mut first = builder.get_chip_info("Nand").unwrap();
    assert_eq!(bools_of_bits(&first.chip.eval(&bits(&[false, false])).unwrap()), vec![true]);
    let second = builder.get_chip_info("Nand").unwrap();
    match second.chip {
        ChipModel::Nand(n) => assert!(!n.bit),
        _ => panic!("the builtin gate is a NAND"),
    }
}


#[test]
fn built_chips_can_be_simulated() {
    let builder = hdl_01();
    for name in ["Nand", "Not", "And", "DMux", "DMux4Way"] {
        let info = builder.get_chip_info(name).unwrap();
        assert_eq!(info.interface.name, name);
        let inputs = info.interface.size_in();
        assert!(info.chip.can_simulate(inputs), "{name}");
    }
    let not = builder.get_chip_info("Not").unwrap().chip;
    assert!(!not.can_simulate(0));
    // a route into a part that does not exist
    let mut broken = manual_not_chip();
    if let ChipModel::Native(n) = &mut broken {
        n.in_router.map.push((ChannelRange::new(0, 0), Hook { id: Id(7), range: ChannelRange::new(0, 0) }));
    }
    assert!(!broken.can_simulate(1));
    assert!(manual_not_chip().can_simulate(1));
}

#[test]
fn checked_registration() {
    let mut builder = ChipBuilder::new();
    builder.with_builtins();
    assert!(matches!(builder.register_hdl_checked(not_description()), Registration::Done(Ok(()))));
    assert!(matches!(
        builder.register_hdl_checked(not_description()),
        Registration::Done(Err(ModelConstructionError::Rebuilt(_)))
    ));
    assert!(matches!(builder.register_hdl_checked(dff()), Registration::Aborts));
    let empty_pin = Chip {
        name: "Empty".to_string(),
        in_pins: vec![channel("in", Some(0))],
        out_pins: vec![channel("out", None)],
        logic: Form::Native(vec![]),
    };
    assert!(matches!(builder.register_hdl_checked(empty_pin), Registration::Aborts));
    assert_eq!(builder.get_registry().len(), 2);
    assert!(widths_fit(&vec![channel("a", Some(16)), channel("b", None)]));
    assert!(!widths_fit(&vec![channel("a", Some(0))]));
    assert!(!widths_fit(&vec![channel("a", Some(0xffff)), channel("b", None)]));
}
