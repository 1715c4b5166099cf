use topola::specctra::common::ListToken;
use topola::specctra::read::{InputToken, ListTokenizer, ParseError};
use topola::specctra::structure::{
    Circuit, Dummy, Layer, NetPinAssignments, Parser, Pins, Property, Via, ViaNames,
};

fn tokenizer(text: &str) -> ListTokenizer {
    ListTokenizer::new(text.chars().collect())
}

fn expected(error: &ParseError) -> Option<&'static str> {
    match error {
        ParseError::Expected(what) => Some(*what),
        _ => None,
    }
}

#[test]
fn tokens_of_a_list() {
    let mut t = tokenizer("(pcb  board.dsn\n  (unit mm))");
    let start = t.consume_token().unwrap();
    assert!(matches!(&start.token, ListToken::Start { name } if name == "pcb"));
    let leaf = t.consume_token().unwrap();
    assert!(matches!(&leaf.token, ListToken::Leaf { value } if value == "board.dsn"));
    let unit = t.consume_token().unwrap();
    assert!(matches!(&unit.token, ListToken::Start { name } if name == "unit"));
    assert_eq!(t.context(), (2, 7));
    let mm = t.consume_token().unwrap();
    assert!(matches!(&mm.token, ListToken::Leaf { value } if value == "mm"));
    assert!(matches!(t.consume_token().unwrap().token, ListToken::End));
    assert!(matches!(t.consume_token().unwrap().token, ListToken::End));
    let eof = t.consume_token().unwrap_err();
    assert!(matches!(eof.error(), ParseError::Eof));
    assert_eq!(eof.context(), (2, 12));
}

#[test]
fn token_context_is_where_it_starts() {
    let mut t = tokenizer("\n\n   (layer F.Cu)");
    let start = t.consume_token().unwrap();
    let err = start.expect_end().unwrap_err();
    assert_eq!(err.context(), (3, 3));
    assert_eq!(expected(err.error()), Some(")"));
}

#[test]
fn returned_token_comes_back() {
    let mut t = tokenizer("a b ");
    let a = t.consume_token().unwrap();
    t.return_token(a);
    let again = t.consume_token().unwrap();
    assert_eq!(again.expect_leaf().unwrap(), "a");
    assert_eq!(t.consume_token().unwrap().expect_leaf().unwrap(), "b");
}

#[test]
fn unquoted_string_at_end_of_file_is_eof() {
    let mut t = tokenizer("abc");
    let err = t.consume_token().unwrap_err();
    assert!(matches!(err.error(), ParseError::Eof));
    assert_eq!(err.context(), (1, 3));
}

#[test]
fn empty_list_name_is_an_error() {
    let mut t = tokenizer("( )");
    let err = t.consume_token().unwrap_err();
    assert_eq!(expected(err.error()), Some("string (unquoted)"));
    assert_eq!(err.context(), (1, 2));
}

#[test]
fn expect_start_ignores_ascii_case() {
    let token = InputToken::new(ListToken::Start { name: "PCB".to_string() }, (1, 0));
    assert!(token.expect_start("pcb").is_ok());
    let token = InputToken::new(ListToken::Start { name: "pcbx".to_string() }, (4, 2));
    let err = token.expect_start("pcb").unwrap_err();
    assert!(matches!(err.error(), ParseError::ExpectedStartOfList("pcb")));
    assert_eq!(err.context(), (4, 2));
    let token = InputToken::new(ListToken::End, (1, 0));
    assert!(matches!(
        token.expect_any_start().unwrap_err().error(),
        ParseError::ExpectedStartOfList("")
    ));
    let token = InputToken::new(ListToken::Start { name: "Outline".to_string() }, (1, 0));
    assert_eq!(token.expect_any_start().unwrap(), "Outline");
}

#[test]
fn list_token_expectations() {
    assert!(ListToken::End.expect_end().is_ok());
    assert!(matches!(
        ListToken::Leaf { value: "x".to_string() }.expect_end(),
        Err(ParseError::Expected(")"))
    ));
    assert!(matches!(ListToken::End.expect_leaf(), Err(ParseError::Expected("leaf value"))));
    assert_eq!(ListToken::Leaf { value: "x".to_string() }.expect_leaf().unwrap(), "x");
}

#[test]
fn read_named_reads_one_list() {
    let mut t = tokenizer("(index 3)");
    assert_eq!(t.read_named::<usize>("index").unwrap(), 3);
    let mut t = tokenizer("(INDEX 3)");
    assert_eq!(t.read_named::<usize>("index").unwrap(), 3);
    let mut t = tokenizer("(width 3)");
    let err = t.read_named::<usize>("index").unwrap_err();
    assert!(matches!(err.error(), ParseError::ExpectedStartOfList("index")));
    assert_eq!(err.context(), (1, 0));
    let mut t = tokenizer("(index 3 4)");
    let err = t.read_named::<usize>("index").unwrap_err();
    assert_eq!(expected(err.error()), Some(")"));
    assert_eq!(err.context(), (1, 9));
}

#[test]
fn read_optional_puts_back_what_it_does_not_want() {
    let mut t = tokenizer("(host_cad KiCad) (host_version 8)");
    let quote: Option<char> = t.read_optional("string_quote").unwrap();
    assert_eq!(quote, None);
    let cad: Option<String> = t.read_optional("host_cad").unwrap();
    assert_eq!(cad.as_deref(), Some("KiCad"));
    let version: Option<String> = t.read_optional("host_version").unwrap();
    assert_eq!(version.as_deref(), Some("8"));
    let mut t = tokenizer("(HOST_CAD KiCad)");
    let cad: Option<String> = t.read_optional("host_cad").unwrap();
    assert_eq!(cad, None);
}

#[test]
fn read_array_reads_leaves_until_a_list() {
    let mut t = tokenizer("a b c (d)");
    let values: Vec<String> = t.read_array().unwrap();
    assert_eq!(values, vec!["a", "b", "c"]);
    let start = t.consume_token().unwrap();
    assert!(start.expect_start("d").is_ok());
    let mut t = tokenizer(")");
    let values: Vec<String> = t.read_array().unwrap();
    assert!(values.is_empty());
}

#[test]
fn read_array_with_alias_accepts_each_name() {
    let mut t = tokenizer("(index 1) (INDEX 2) (idx 3) (other 4)");
    let values: Vec<usize> = t.read_array_with_alias(&["index", "idx"]).unwrap();
    assert_eq!(values, vec![1, 2, 3]);
    let rest = t.consume_token().unwrap();
    assert!(rest.expect_start("other").is_ok());
    let mut t = tokenizer("(net 1) (net 2) x ");
    let values: Vec<usize> = t.read_named_array("net").unwrap();
    assert_eq!(values, vec![1, 2]);
}

#[test]
fn numbers() {
    let mut t = tokenizer("-2147483648 2147483647 +7 2147483648 ");
    assert_eq!(t.read_value::<i32>().unwrap(), i32::MIN);
    assert_eq!(t.read_value::<i32>().unwrap(), i32::MAX);
    assert_eq!(t.read_value::<i32>().unwrap(), 7);
    let err = t.read_value::<i32>().unwrap_err();
    assert_eq!(expected(err.error()), Some("i32"));
    assert_eq!(err.context(), (1, 36));

    let mut t = tokenizer("4294967295 +0 -1 4294967296 12a ");
    assert_eq!(t.read_value::<u32>().unwrap(), u32::MAX);
    assert_eq!(t.read_value::<u32>().unwrap(), 0);
    assert_eq!(expected(t.read_value::<u32>().unwrap_err().error()), Some("u32"));
    assert_eq!(expected(t.read_value::<u32>().unwrap_err().error()), Some("u32"));
    assert_eq!(expected(t.read_value::<u32>().unwrap_err().error()), Some("u32"));

    let mut t = tokenizer("0 42 - + ");
    assert_eq!(t.read_value::<usize>().unwrap(), 0);
    assert_eq!(t.read_value::<usize>().unwrap(), 42);
    assert_eq!(expected(t.read_value::<usize>().unwrap_err().error()), Some("usize"));
    assert_eq!(expected(t.read_value::<usize>().unwrap_err().error()), Some("usize"));
}

#[test]
fn switches_and_characters() {
    let mut t = tokenizer("on off yes \" ab ");
    assert!(t.read_value::<bool>().unwrap());
    assert!(!t.read_value::<bool>().unwrap());
    assert_eq!(expected(t.read_value::<bool>().unwrap_err().error()), Some("boolean"));
    assert_eq!(t.read_value::<char>().unwrap(), '"');
    assert_eq!(expected(t.read_value::<char>().unwrap_err().error()), Some("a single character"));
}

#[test]
fn parser_sets_quotes_for_what_follows() {
    let text = "(string_quote \")\n(space_in_quoted_tokens on)\n(host_cad \"KiCad's Pcbnew\")\n(host_version \"8.0\")\n(layer \"F Cu\")";
    let mut t = tokenizer(text);
    let parser: Parser = t.read_value().unwrap();
    assert_eq!(parser.string_quote, Some('"'));
    assert_eq!(parser.space_in_quoted_tokens, Some(true));
    assert_eq!(parser.host_cad.as_deref(), Some("KiCad's Pcbnew"));
    assert_eq!(parser.host_version.as_deref(), Some("8.0"));
    assert_eq!(t.read_named::<String>("layer").unwrap(), "F Cu");
}

#[test]
fn space_in_quoted_string_must_be_declared() {
    let mut t = tokenizer("(string_quote \")\n(host_cad \"KiCad Pcbnew\")");
    let err = t.read_value::<Parser>().unwrap_err();
    assert_eq!(expected(err.error()), Some("quoted string without spaces"));
    assert_eq!(err.context(), (2, 16));
}

#[test]
fn empty_parser() {
    let mut t = tokenizer("(resolution um 10)");
    let parser: Parser = t.read_value().unwrap();
    assert_eq!(parser.string_quote, None);
    assert_eq!(parser.space_in_quoted_tokens, None);
    assert!(parser.host_cad.is_none() && parser.host_version.is_none());
    assert!(t.consume_token().unwrap().expect_start("resolution").is_ok());
}

#[test]
fn structures() {
    let mut t = tokenizer("(layer F.Cu (type signal) (property (index 0)))");
    let layer: Layer = t.read_named("layer").unwrap();
    assert_eq!(layer.name, "F.Cu");
    assert_eq!(layer.kind, "signal");
    assert_eq!(layer.property.index, 0);

    let mut t = tokenizer("(via \"Via[0-1]_800:400_um\" Via2)");
    let via: ViaNames = t.read_named("via").unwrap();
    assert_eq!(via.names, vec!["\"Via[0-1]_800:400_um\"", "Via2"]);

    let mut t = tokenizer("(net GND (pins U1-2 C1-1))");
    let net: NetPinAssignments = t.read_named("net").unwrap();
    assert_eq!(net.name, "GND");
    assert_eq!(net.pins.names, vec!["U1-2", "C1-1"]);

    let mut t = tokenizer("(pins)");
    let pins: Pins = t.read_named("pins").unwrap();
    assert!(pins.names.is_empty());

    let mut t = tokenizer("(circuit (use_via Via2))");
    let circuit: Circuit = t.read_named("circuit").unwrap();
    assert_eq!(circuit.use_via, "Via2");

    let mut t = tokenizer("(via Via2 -1500 2500 (net GND) (type protect))");
    let via: Via = t.read_named("via").unwrap();
    assert_eq!((via.name.as_str(), via.x, via.y), ("Via2", -1500, 2500));
    assert_eq!((via.net.as_str(), via.kind.as_str()), ("GND", "protect"));

    let mut t = tokenizer("(dummy)");
    let _dummy: Dummy = t.read_named("dummy").unwrap();

    let mut t = tokenizer("(property (index x))");
    let err = t.read_named::<Property>("property").unwrap_err();
    assert_eq!(expected(err.error()), Some("usize"));
    assert_eq!(err.context(), (1, 18));
}

#[test]
fn errors_carry_their_place() {
    let err = ParseError::Io(std::io::Error::new(std::io::ErrorKind::Other, "disk")).add_context((3, 4));
    assert!(matches!(err.error(), ParseError::Io(_)));
    assert_eq!(err.context(), (3, 4));
    let (error, context) = ParseError::Expected("u32").add_context((1, 2)).into_parts();
    assert!(matches!(error, ParseError::Expected("u32")));
    assert_eq!(context, (1, 2));
}
