//! The parsed form of an HDL chip description.
use vstd::prelude::*;
use crate::channel_range::ChannelRange;

pub mod connection;
pub mod interface;

verus! {

/// A chip as written in HDL: its name, its pins and how it is made.
#[derive(Debug)]
pub struct Chip {
    pub name: String,
    pub in_pins: Vec<Channel>,
    pub out_pins: Vec<Channel>,
    pub logic: Form,
}

/// How a chip is made: by the simulator itself, or from other chips.
#[derive(Debug)]
pub enum Form {
    Builtin(Builtin),
    Native(Vec<Connection>),
}

/// A chip the simulator provides, with the names of its clocked pins.
#[derive(Debug)]
pub struct Builtin {
    pub name: String,
    pub clocked: Option<Vec<String>>,
}

/// A pin declaration: its name and, for a bus, its width.
#[derive(Debug, PartialEq, Eq)]
pub struct Channel {
    pub name: String,
    pub size: Option<u16>,
}

/// One part of a chip: the chip used and how its pins are connected.
#[derive(Debug)]
pub struct Connection {
    pub chip_name: String,
    pub inputs: Vec<Argument>,
}

/// One pin assignment `internal[bus] = external[bus]` of a part.
#[derive(Debug)]
pub struct Argument {
    pub internal: String,
    pub internal_bus: Option<ChannelRange>,
    pub external: Symbol,
    pub external_bus: Option<ChannelRange>,
}

/// What a part's pin is connected to: a named wire or pin, a constant, or a number.
#[derive(Debug, PartialEq, Eq)]
pub enum Symbol {
    Name(String),
    Value(Value),
    Number(u16),
}

/// A constant bit.
#[derive(Eq, PartialEq, Debug, Clone, Copy, Structural)]
pub enum Value {
    True,
    False,
}

impl Value {
    /// The truth value of the constant.
    pub open spec fn truth(self) -> bool {
        self is True
    }
}

impl From<Value> for bool {
    fn from(v: Value) -> (b: bool) {
        match v {
            Value::True => true,
            Value::False => false,
        }
    }
}

impl vstd::std_specs::convert::FromSpecImpl<Value> for bool {
    open spec fn obeys_from_spec() -> bool {
        true
    }

    open spec fn from_spec(v: Value) -> bool {
        v.truth()
    }
}

/// Abstract form of a [`Channel`].
pub struct ChannelV {
    pub name: Seq<char>,
    pub size: Option<u16>,
}

impl View for Channel {
    type V = ChannelV;

    open spec fn view(&self) -> ChannelV {
        ChannelV { name: self.name@, size: self.size }
    }
}

/// Abstract form of a [`Symbol`].
pub enum SymbolV {
    Name(Seq<char>),
    Value(Value),
    Number(u16),
}

impl View for Symbol {
    type V = SymbolV;

    open spec fn view(&self) -> SymbolV {
        match self {
            Symbol::Name(s) => SymbolV::Name(s@),
            Symbol::Value(v) => SymbolV::Value(*v),
            Symbol::Number(n) => SymbolV::Number(*n),
        }
    }
}

/// Abstract form of an [`Argument`].
pub struct ArgumentV {
    pub internal: Seq<char>,
    pub internal_bus: Option<ChannelRange>,
    pub external: SymbolV,
    pub external_bus: Option<ChannelRange>,
}

impl View for Argument {
    type V = ArgumentV;

    open spec fn view(&self) -> ArgumentV {
        ArgumentV {
            internal: self.internal@,
            internal_bus: self.internal_bus,
            external: self.external@,
            external_bus: self.external_bus,
        }
    }
}

/// Abstract form of a [`Connection`].
pub struct ConnectionV {
    pub chip_name: Seq<char>,
    pub inputs: Seq<ArgumentV>,
}

impl View for Connection {
    type V = ConnectionV;

    open spec fn view(&self) -> ConnectionV {
        ConnectionV {
            chip_name: self.chip_name@,
            inputs: self.inputs@.map_values(|a: Argument| a@),
        }
    }
}

} // verus!
