//! Values, variables, and the parser of a declaration line.

use vstd::prelude::*;
use vstd::string::StrSliceExecFns;
use crate::grammar::{
    declaration, find_declaration, lemma_reading_is_declaration, reads_as, value_may_start, Decl,
};
use crate::number::{
    int_text, is_digit, law_int_text_reads_back, lemma_int_text_chars, parse_int, read_int,
    write_int,
};
use crate::result::result_view;
use crate::text::{all_in, is_quote, is_space, spells, to_chars, word_of, Class};

verus! {

/// A scalar value: an integer or a text.
#[derive(Debug, PartialEq, Eq, Clone)]
pub enum VarValue {
    Int(i64),
    Str(String),
}

/// What a `VarValue` stands for.
pub enum ValueView {
    Integer(int),
    Text(Seq<char>),
}

impl View for VarValue {
    type V = ValueView;

    open spec fn view(&self) -> ValueView {
        match self {
            VarValue::Int(n) => ValueView::Integer(*n as int),
            VarValue::Str(s) => ValueView::Text(s@),
        }
    }
}

impl ValueView {
    /// The canonical text of the value: a text as it is, an integer in decimal.
    pub open spec fn text(self) -> Seq<char> {
        match self {
            ValueView::Integer(n) => int_text(n),
            ValueView::Text(s) => s,
        }
    }
}

impl VarValue {
    /// The canonical text of the value.
    pub fn text(&self) -> (r: String)
        ensures
            r@ == self@.text(),
    {
        match self {
            VarValue::Int(n) => write_int(*n),
            VarValue::Str(s) => s.clone(),
        }
    }

    /// A copy of the value.
    pub fn copy(&self) -> (r: VarValue)
        ensures
            r@ == self@,
    {
        match self {
            VarValue::Int(n) => VarValue::Int(*n),
            VarValue::Str(s) => VarValue::Str(s.clone()),
        }
    }
}

/// Why a line is no declaration.
#[derive(Debug)]
pub enum VarErr {
    /// The value of an `Int` declaration spells no integer; holds the value.
    InvalidInt(String),
    /// The line holds no declaration; holds the line.
    InvalidVarDeclaration(String),
    /// The type is none of `Int`, `Str` and `String`; holds the type.
    InvalidDataType(String),
}

/// What a `VarErr` stands for.
pub enum VarErrView {
    InvalidInt(Seq<char>),
    InvalidVarDeclaration(Seq<char>),
    InvalidDataType(Seq<char>),
}

impl View for VarErr {
    type V = VarErrView;

    open spec fn view(&self) -> VarErrView {
        match self {
            VarErr::InvalidInt(s) => VarErrView::InvalidInt(s@),
            VarErr::InvalidVarDeclaration(s) => VarErrView::InvalidVarDeclaration(s@),
            VarErr::InvalidDataType(s) => VarErrView::InvalidDataType(s@),
        }
    }
}

/// A named value.
#[derive(Debug, PartialEq, Eq, Clone)]
pub struct Variable {
    pub name: String,
    pub value: VarValue,
}

/// What a `Variable` stands for.
pub struct VariableView {
    pub name: Seq<char>,
    pub value: ValueView,
}

impl View for Variable {
    type V = VariableView;

    open spec fn view(&self) -> VariableView {
        VariableView { name: self.name@, value: self.value@ }
    }
}

/// The type name `Int`.
pub open spec fn int_type() -> Seq<char> {
    seq!['I', 'n', 't']
}

/// The type name `Str`.
pub open spec fn str_type() -> Seq<char> {
    seq!['S', 't', 'r']
}

/// The type name `String`.
pub open spec fn string_type() -> Seq<char> {
    seq!['S', 't', 'r', 'i', 'n', 'g']
}

/// The three type names are spelled as their literals are.
proof fn lemma_type_names()
    ensures
        "Int"@ == int_type(),
        "Str"@ == str_type(),
        "String"@ == string_type(),
{
    reveal_strlit("Int");
    reveal_strlit("Str");
    reveal_strlit("String");
    assert("Int"@ =~= int_type());
    assert("Str"@ =~= str_type());
    assert("String"@ =~= string_type());
}

/// The part of `s` that a pair of positions marks.
pub open spec fn part(s: Seq<char>, span: (int, int)) -> Seq<char> {
    s.subrange(span.0, span.1)
}

/// The variable that a line declares. The line must hold a declaration; its type must
/// be `Str` or `String`, and the value is then taken as a text, or `Int`, and the
/// value must then spell an integer.
pub open spec fn parse_declaration(s: Seq<char>) -> Result<VariableView, VarErrView> {
    match declaration(s) {
        None => Err(VarErrView::InvalidVarDeclaration(s)),
        Some(d) => {
            let name = part(s, d.name);
            let kind = part(s, d.kind);
            let value = part(s, d.value);
            if kind == str_type() || kind == string_type() {
                Ok(VariableView { name, value: ValueView::Text(value) })
            } else if kind == int_type() {
                match parse_int(value) {
                    Some(n) => Ok(VariableView { name, value: ValueView::Integer(n) }),
                    None => Err(VarErrView::InvalidInt(value)),
                }
            } else {
                Err(VarErrView::InvalidDataType(kind))
            }
        },
    }
}

/// Copies the characters from `span.0` up to `span.1` out of `s`.
fn cut(s: &str, span: (usize, usize)) -> (r: String)
    requires
        span.0 <= span.1 <= s@.len(),
    ensures
        r@ == s@.subrange(span.0 as int, span.1 as int),
{
    s.substring_char(span.0, span.1).to_owned()
}

impl Variable {
    /// A variable of the given name and value.
    pub fn new(name: &str, value: VarValue) -> (r: Self)
        ensures
            r@ == (VariableView { name: name@, value: value@ }),
    {
        Self { name: name.to_owned(), value }
    }

    /// Tells whether a line holds a declaration.
    pub fn is_var(s: &str) -> (b: bool)
        ensures
            b == (declaration(s@) is Some),
    {
        let v = to_chars(s);
        find_declaration(&v).is_some()
    }
}

impl std::str::FromStr for Variable {
    type Err = VarErr;

    /// Reads the variable that a line declares.
    fn from_str(s: &str) -> (r: Result<Self, VarErr>)
        ensures
            result_view(r) == parse_declaration(s@),
    {
        let v = to_chars(s);
        match find_declaration(&v) {
            None => Err(VarErr::InvalidVarDeclaration(s.to_owned())),
            Some(d) => {
                let name = cut(s, d.name);
                proof {
                    lemma_type_names();
                }
                if spells(&v, d.kind, "Str") || spells(&v, d.kind, "String") {
                    Ok(Variable { name, value: VarValue::Str(cut(s, d.value)) })
                } else if spells(&v, d.kind, "Int") {
                    match read_int(&v, d.value.0, d.value.1) {
                        Some(n) => Ok(Variable { name, value: VarValue::Int(n) }),
                        None => Err(VarErr::InvalidInt(cut(s, d.value))),
                    }
                } else {
                    Err(VarErr::InvalidDataType(cut(s, d.kind)))
                }
            },
        }
    }
}

/// The line that is written as a name, a colon, a space, a type, ` = `, and then what
/// stands for the value.
pub open spec fn declaration_line(name: Seq<char>, kind: Seq<char>, rest: Seq<char>) -> Seq<char> {
    name + seq![':', ' '] + kind + seq![' ', '=', ' '] + rest
}

/// In the line written as `name: kind = ` and then `lead`, `value` and `tail`, the
/// declaration is made of `name`, `kind` and `value`: where `lead` is empty or one
/// quote, `value` does not begin with white space unless a quote precedes it, and
/// `tail` is empty or begins with a character that no value holds.
pub proof fn lemma_line_declares(
    name: Seq<char>,
    kind: Seq<char>,
    lead: Seq<char>,
    value: Seq<char>,
    tail: Seq<char>,
)
    requires
        word_of(name, Class::Name),
        word_of(kind, Class::Name),
        word_of(value, Class::Value),
        lead.len() == 0 && !is_space(value[0]) || lead.len() == 1 && is_quote(lead[0]),
        tail.len() == 0 || !Class::Value.has(tail[0]),
    ensures
        declaration(declaration_line(name, kind, lead + value + tail)) matches Some(d) && part(
            declaration_line(name, kind, lead + value + tail),
            d.name,
        ) == name && part(declaration_line(name, kind, lead + value + tail), d.kind) == kind
            && part(declaration_line(name, kind, lead + value + tail), d.value) == value,
{
    let s = declaration_line(name, kind, lead + value + tail);
    let n = name.len() as int;
    let k = kind.len() as int;
    let colon = n;
    let sign = n + 2 + k + 1;
    let start = sign + 2 + lead.len();
    let d = Decl { name: (0, n), kind: (n + 2, n + 2 + k), value: (start, start + value.len()) };
    assert(s.len() == start + value.len() + tail.len());
    assert forall|i: int| 0 <= i < n implies s[i] == name[i] by {}
    assert(s[n] == ':' && s[n + 1] == ' ');
    assert forall|i: int| 0 <= i < k implies s[n + 2 + i] == kind[i] by {}
    assert(s[sign - 1] == ' ' && s[sign] == '=' && s[sign + 1] == ' ');
    assert forall|i: int| 0 <= i < lead.len() implies s[sign + 2 + i] == lead[i] by {}
    assert forall|i: int| 0 <= i < value.len() implies s[start + i] == value[i] by {}
    assert forall|i: int| 0 <= i < tail.len() implies s[start + value.len() + i] == tail[i] by {}
    assert(all_in(s, 0, n, Class::Name)) by {
        assert forall|i: int| 0 <= i < n implies Class::Name.has(#[trigger] s[i]) by {
            assert(Class::Name.has(name[i]));
        }
    }
    assert(all_in(s, n + 2, n + 2 + k, Class::Name)) by {
        assert forall|i: int| n + 2 <= i < n + 2 + k implies Class::Name.has(#[trigger] s[i]) by {
            assert(s[n + 2 + (i - n - 2)] == kind[i - n - 2]);
            assert(Class::Name.has(kind[i - n - 2]));
        }
    }
    assert(all_in(s, start, start + value.len(), Class::Value)) by {
        assert forall|i: int| start <= i < start + value.len() implies Class::Value.has(
            #[trigger] s[i],
        ) by {
            assert(s[start + (i - start)] == value[i - start]);
            assert(Class::Value.has(value[i - start]));
        }
    }
    assert(s[start] == value[0]);
    assert(Class::Value.has(value[0]));
    if lead.len() == 1 {
        assert(s[sign + 2] == lead[0]);
    }
    assert(value_may_start(s, sign + 1, start));
    assert forall|j: int| start < j < s.len() implies !#[trigger] value_may_start(s, sign + 1, j) by {
        if value_may_start(s, sign + 1, j) {
            // The white space before a later start would hold the first character of the
            // value, or the quote before it.
            if lead.len() == 1 {
                assert(Class::Space.has(s[sign + 2]));
            } else if all_in(s, sign + 1, j, Class::Space) {
                assert(Class::Space.has(s[start]));
            } else if j - 1 > start {
                assert(Class::Space.has(s[start]));
            }
        }
    }
    if tail.len() > 0 {
        assert(s[start + value.len()] == tail[0]);
    }
    assert(reads_as(s, d, colon, sign));
    lemma_reading_is_declaration(s, d, colon, sign);
    assert(part(s, d.name) =~= name);
    assert(part(s, d.kind) =~= kind);
    assert(part(s, d.value) =~= value);
}

/// The line `name: Int = N`, with `N` the canonical text of an integer that fits in 64
/// bits, declares `name` as that integer.
pub proof fn law_int_declaration(name: Seq<char>, n: int)
    requires
        word_of(name, Class::Name),
        i64::MIN <= n <= i64::MAX,
    ensures
        parse_declaration(declaration_line(name, int_type(), int_text(n))) == Ok::<_, VarErrView>(
            VariableView { name, value: ValueView::Integer(n) },
        ),
{
    let value = int_text(n);
    let kind = int_type();
    lemma_int_text_chars(n);
    law_int_text_reads_back(n);
    assert(kind.len() == 3 && kind[0] == 'I' && kind[1] == 'n' && kind[2] == 't');
    assert(word_of(kind, Class::Name));
    assert(word_of(value, Class::Value)) by {
        assert forall|i: int| 0 <= i < value.len() implies Class::Value.has(#[trigger] value[i]) by {
            assert(is_digit(value[i]) || value[i] == '-');
        }
    }
    assert(is_digit(value[0]) || value[0] == '-');
    let lead = Seq::<char>::empty();
    assert(lead + value + lead =~= value);
    lemma_line_declares(name, kind, lead, value, lead);
    assert(kind != str_type()) by {
        assert(str_type()[0] == 'S');
    }
    assert(kind != string_type()) by {
        assert(string_type()[0] == 'S');
    }
}

/// The line `name: Str = "text"`, with `Str` or `String` as the type and a single or a
/// double quote on each side, declares `name` as `text`, without the quotes.
pub proof fn law_text_declaration(name: Seq<char>, kind: Seq<char>, quote: char, text: Seq<char>)
    requires
        word_of(name, Class::Name),
        kind == str_type() || kind == string_type(),
        is_quote(quote),
        word_of(text, Class::Value),
    ensures
        parse_declaration(declaration_line(name, kind, seq![quote] + text + seq![quote])) == Ok::<
            _,
            VarErrView,
        >(VariableView { name, value: ValueView::Text(text) }),
{
    assert(word_of(kind, Class::Name)) by {
        let short = str_type();
        let long = string_type();
        assert(short.len() == 3 && short[0] == 'S' && short[1] == 't' && short[2] == 'r');
        assert(long.len() == 6 && long[0] == 'S' && long[1] == 't' && long[2] == 'r' && long[3]
            == 'i' && long[4] == 'n' && long[5] == 'g');
    }
    lemma_line_declares(name, kind, seq![quote], text, seq![quote]);
}

/// The line `name: Str = text`, with `Str` or `String` as the type and no quotes,
/// declares `name` as `text`, if `text` does not begin with white space.
pub proof fn law_bare_text_declaration(name: Seq<char>, kind: Seq<char>, text: Seq<char>)
    requires
        word_of(name, Class::Name),
        kind == str_type() || kind == string_type(),
        word_of(text, Class::Value),
        !is_space(text[0]),
    ensures
        parse_declaration(declaration_line(name, kind, text)) == Ok::<_, VarErrView>(
            VariableView { name, value: ValueView::Text(text) },
        ),
{
    assert(word_of(kind, Class::Name)) by {
        let short = str_type();
        let long = string_type();
        assert(short.len() == 3 && short[0] == 'S' && short[1] == 't' && short[2] == 'r');
        assert(long.len() == 6 && long[0] == 'S' && long[1] == 't' && long[2] == 'r' && long[3]
            == 'i' && long[4] == 'n' && long[5] == 'g');
    }
    let lead = Seq::<char>::empty();
    assert(lead + text + lead =~= text);
    lemma_line_declares(name, kind, lead, text, lead);
}

} // verus!
