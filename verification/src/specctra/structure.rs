//! The lists of a Specctra design file, and how each is read.

use vstd::prelude::*;

use super::read::{
    measure, read_array_spec, read_named_spec, ListTokenizer, Outcome, ParseErrorContext,
    ReadDsn, TokState,
};

verus! {

/// A list with nothing in it.
#[derive(Debug)]
pub struct Dummy {}

impl DeepView for Dummy {
    type V = ();

    open spec fn deep_view(&self) -> () {
        ()
    }
}

impl ReadDsn for Dummy {
    open spec fn read_spec(s: Seq<char>, st: TokState) -> Outcome<()> {
        Ok(((), st))
    }

    open spec fn consumes_leaf() -> bool {
        false
    }

    fn read_dsn(tokenizer: &mut ListTokenizer) -> (r: Result<Self, ParseErrorContext>) {
        Ok(Dummy {})
    }
}

/// How the file is written: its quote character, whether quoted strings may hold
/// spaces, and the program that wrote it.
#[derive(Debug)]
pub struct Parser {
    pub string_quote: Option<char>,
    pub space_in_quoted_tokens: Option<bool>,
    pub host_cad: Option<String>,
    pub host_version: Option<String>,
}

impl DeepView for Parser {
    type V = (Option<char>, Option<bool>, Option<Seq<char>>, Option<Seq<char>>);

    open spec fn deep_view(&self) -> Self::V {
        (
            self.string_quote,
            self.space_in_quoted_tokens,
            self.host_cad.deep_view(),
            self.host_version.deep_view(),
        )
    }
}

/// A layer of the board: its name, its type and its properties.
#[derive(Debug)]
pub struct Layer {
    pub name: String,
    pub kind: String,
    pub property: Property,
}

impl DeepView for Layer {
    type V = (Seq<char>, Seq<char>, usize);

    open spec fn deep_view(&self) -> Self::V {
        (self.name@, self.kind@, self.property.index)
    }
}

impl ReadDsn for Layer {
    open spec fn read_spec(s: Seq<char>, st: TokState) -> Outcome<(Seq<char>, Seq<char>, usize)> {
        match <String as ReadDsn>::read_spec(s, st) {
            Err(e) => Err(e),
            Ok((name, st1)) => match read_named_spec::<String>(s, st1, "type"@) {
                Err(e) => Err(e),
                Ok((kind, st2)) => match read_named_spec::<Property>(s, st2, "property"@) {
                    Err(e) => Err(e),
                    Ok((property, st3)) => Ok(((name, kind, property), st3)),
                },
            },
        }
    }

    open spec fn consumes_leaf() -> bool {
        true
    }

    fn read_dsn(tokenizer: &mut ListTokenizer) -> (r: Result<Self, ParseErrorContext>) {
        let name = match tokenizer.read_value::<String>() {
            Ok(v) => v,
            Err(e) => {
                return Err(e);
            },
        };
        let kind = match tokenizer.read_named::<String>("type") {
            Ok(v) => v,
            Err(e) => {
                return Err(e);
            },
        };
        let property = match tokenizer.read_named::<Property>("property") {
            Ok(v) => v,
            Err(e) => {
                return Err(e);
            },
        };
        Ok(Layer { name, kind, property })
    }
}

/// The properties of a layer: its index.
#[derive(Debug)]
pub struct Property {
    pub index: usize,
}

impl DeepView for Property {
    type V = usize;

    open spec fn deep_view(&self) -> usize {
        self.index
    }
}

impl ReadDsn for Property {
    open spec fn read_spec(s: Seq<char>, st: TokState) -> Outcome<usize> {
        read_named_spec::<usize>(s, st, "index"@)
    }

    open spec fn consumes_leaf() -> bool {
        true
    }

    fn read_dsn(tokenizer: &mut ListTokenizer) -> (r: Result<Self, ParseErrorContext>) {
        match tokenizer.read_named::<usize>("index") {
            Ok(index) => Ok(Property { index }),
            Err(e) => Err(e),
        }
    }
}

/// The names of the vias that may be used.
#[derive(Debug)]
pub struct ViaNames {
    pub names: Vec<String>,
}

impl DeepView for ViaNames {
    type V = Seq<Seq<char>>;

    open spec fn deep_view(&self) -> Seq<Seq<char>> {
        self.names.deep_view()
    }
}

impl ReadDsn for ViaNames {
    open spec fn read_spec(s: Seq<char>, st: TokState) -> Outcome<Seq<Seq<char>>> {
        read_array_spec::<String>(s, st, measure(s, st) as nat)
    }

    open spec fn consumes_leaf() -> bool {
        true
    }

    fn read_dsn(tokenizer: &mut ListTokenizer) -> (r: Result<Self, ParseErrorContext>) {
        match tokenizer.read_array::<String>() {
            Ok(names) => Ok(ViaNames { names }),
            Err(e) => Err(e),
        }
    }
}

/// A net of the design and the pins it connects.
#[derive(Debug)]
pub struct NetPinAssignments {
    pub name: String,
    pub pins: Pins,
}

impl DeepView for NetPinAssignments {
    type V = (Seq<char>, Seq<Seq<char>>);

    open spec fn deep_view(&self) -> Self::V {
        (self.name@, self.pins.names.deep_view())
    }
}

impl ReadDsn for NetPinAssignments {
    open spec fn read_spec(s: Seq<char>, st: TokState) -> Outcome<(Seq<char>, Seq<Seq<char>>)> {
        match <String as ReadDsn>::read_spec(s, st) {
            Err(e) => Err(e),
            Ok((name, st1)) => match read_named_spec::<Pins>(s, st1, "pins"@) {
                Err(e) => Err(e),
                Ok((pins, st2)) => Ok(((name, pins), st2)),
            },
        }
    }

    open spec fn consumes_leaf() -> bool {
        true
    }

    fn read_dsn(tokenizer: &mut ListTokenizer) -> (r: Result<Self, ParseErrorContext>) {
        let name = match tokenizer.read_value::<String>() {
            Ok(v) => v,
            Err(e) => {
                return Err(e);
            },
        };
        let pins = match tokenizer.read_named::<Pins>("pins") {
            Ok(v) => v,
            Err(e) => {
                return Err(e);
            },
        };
        Ok(NetPinAssignments { name, pins })
    }
}

/// The names of pins.
#[derive(Debug)]
pub struct Pins {
    pub names: Vec<String>,
}

impl DeepView for Pins {
    type V = Seq<Seq<char>>;

    open spec fn deep_view(&self) -> Seq<Seq<char>> {
        self.names.deep_view()
    }
}

impl ReadDsn for Pins {
    open spec fn read_spec(s: Seq<char>, st: TokState) -> Outcome<Seq<Seq<char>>> {
        read_array_spec::<String>(s, st, measure(s, st) as nat)
    }

    open spec fn consumes_leaf() -> bool {
        true
    }

    fn read_dsn(tokenizer: &mut ListTokenizer) -> (r: Result<Self, ParseErrorContext>) {
        match tokenizer.read_array::<String>() {
            Ok(names) => Ok(Pins { names }),
            Err(e) => Err(e),
        }
    }
}

/// The circuit rules of a class of nets: the via it uses.
#[derive(Debug)]
pub struct Circuit {
    pub use_via: String,
}

impl DeepView for Circuit {
    type V = Seq<char>;

    open spec fn deep_view(&self) -> Seq<char> {
        self.use_via@
    }
}

impl ReadDsn for Circuit {
    open spec fn read_spec(s: Seq<char>, st: TokState) -> Outcome<Seq<char>> {
        read_named_spec::<String>(s, st, "use_via"@)
    }

    open spec fn consumes_leaf() -> bool {
        true
    }

    fn read_dsn(tokenizer: &mut ListTokenizer) -> (r: Result<Self, ParseErrorContext>) {
        match tokenizer.read_named::<String>("use_via") {
            Ok(use_via) => Ok(Circuit { use_via }),
            Err(e) => Err(e),
        }
    }
}

/// A via placed on the board: its padstack's name, where it stands, its net and its
/// type.
#[derive(Debug)]
pub struct Via {
    pub name: String,
    pub x: i32,
    pub y: i32,
    pub net: String,
    pub kind: String,
}

impl DeepView for Via {
    type V = (Seq<char>, i32, i32, Seq<char>, Seq<char>);

    open spec fn deep_view(&self) -> Self::V {
        (self.name@, self.x, self.y, self.net@, self.kind@)
    }
}

impl ReadDsn for Via {
    open spec fn read_spec(s: Seq<char>, st: TokState) -> Outcome<
        (Seq<char>, i32, i32, Seq<char>, Seq<char>),
    > {
        match <String as ReadDsn>::read_spec(s, st) {
            Err(e) => Err(e),
            Ok((name, st1)) => match <i32 as ReadDsn>::read_spec(s, st1) {
                Err(e) => Err(e),
                Ok((x, st2)) => match <i32 as ReadDsn>::read_spec(s, st2) {
                    Err(e) => Err(e),
                    Ok((y, st3)) => match read_named_spec::<String>(s, st3, "net"@) {
                        Err(e) => Err(e),
                        Ok((net, st4)) => match read_named_spec::<String>(s, st4, "type"@) {
                            Err(e) => Err(e),
                            Ok((kind, st5)) => Ok(((name, x, y, net, kind), st5)),
                        },
                    },
                },
            },
        }
    }

    open spec fn consumes_leaf() -> bool {
        true
    }

    fn read_dsn(tokenizer: &mut ListTokenizer) -> (r: Result<Self, ParseErrorContext>) {
        let name = match tokenizer.read_value::<String>() {
            Ok(v) => v,
            Err(e) => {
                return Err(e);
            },
        };
        let x = match tokenizer.read_value::<i32>() {
            Ok(v) => v,
            Err(e) => {
                return Err(e);
            },
        };
        let y = match tokenizer.read_value::<i32>() {
            Ok(v) => v,
            Err(e) => {
                return Err(e);
            },
        };
        let net = match tokenizer.read_named::<String>("net") {
            Ok(v) => v,
            Err(e) => {
                return Err(e);
            },
        };
        let kind = match tokenizer.read_named::<String>("type") {
            Ok(v) => v,
            Err(e) => {
                return Err(e);
            },
        };
        Ok(Via { name, x, y, net, kind })
    }
}

} // verus!
