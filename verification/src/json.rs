//! JSON text: framing flat objects, and reading the fields of a parsed document.

use crate::text;
use vstd::prelude::*;

verus! {

// ---------------------------------------------------------------------------------------------
// The notation of a flat object
// ---------------------------------------------------------------------------------------------

/// What stands under a key of a JSON object. Numbers are told apart as `serde_json` does: a
/// non-negative integer that fits in 64 bits, a negative one that fits, and any other number.
/// Any other number, an array and an inner object are given by the text that is written for them.
pub enum JsonField {
    Null,
    Bool(bool),
    Unsigned(u64),
    Negative(i64),
    Text(Seq<char>),
    Other(Seq<char>),
}

/// A JSON document: an object with what stands under its keys, or anything else, given by the text
/// that is written for it.
pub enum JsonDocument {
    Object(Map<Seq<char>, JsonField>),
    Other(Seq<char>),
}

impl JsonDocument {
    /// What the document holds under its keys. A document that is no object holds nothing.
    pub open spec fn fields(self) -> Map<Seq<char>, JsonField> {
        match self {
            JsonDocument::Object(fields) => fields,
            JsonDocument::Other(_) => Map::empty(),
        }
    }

    /// Whether the document is an object of scalars, none of them under the key that `serde_json`
    /// keeps for itself.
    pub open spec fn is_flat(self) -> bool {
        match self {
            JsonDocument::Object(fields) => {
                &&& !fields.contains_key(private_key())
                &&& forall|key: Seq<char>| #[trigger]
                    fields.contains_key(key) ==> is_scalar(fields[key])
            },
            JsonDocument::Other(_) => false,
        }
    }
}

/// The key by which `serde_json` knows a text that stands for itself. What stands first in an
/// object, under this key, is read in the place of the object.
pub open spec fn private_key() -> Seq<char> {
    "$serde_json::private::RawValue"@
}

/// A value that can be written under a key of a JSON object.
#[derive(Debug)]
pub enum Scalar {
    Null,
    Unsigned(u64),
    Signed(i64),
    Text(String),
}

impl Scalar {
    /// The field that the value makes.
    pub open spec fn field(&self) -> JsonField {
        match self {
            Scalar::Null => JsonField::Null,
            Scalar::Unsigned(n) => JsonField::Unsigned(*n),
            Scalar::Signed(n) => integer_field(*n as int),
            Scalar::Text(s) => JsonField::Text(s@),
        }
    }
}

/// The field that an integer makes.
pub open spec fn integer_field(n: int) -> JsonField {
    if n < 0 {
        JsonField::Negative(n as i64)
    } else {
        JsonField::Unsigned(n as u64)
    }
}

/// The field that an optional text makes: `null` where there is none.
pub open spec fn optional_field(s: Option<Seq<char>>) -> JsonField {
    match s {
        Some(t) => JsonField::Text(t),
        None => JsonField::Null,
    }
}

/// A lower-case hexadecimal digit.
pub open spec fn hex_char(d: int) -> char {
    if d < 10 {
        ('0' as u32 + d) as char
    } else {
        ('a' as u32 + d - 10) as char
    }
}

/// A character inside a JSON string: the quote, the backslash and the control characters are
/// escaped.
pub open spec fn escaped_char(c: char) -> Seq<char> {
    let code = c as u32;
    if c == '"' {
        seq!['\\', '"']
    } else if c == '\\' {
        seq!['\\', '\\']
    } else if code == 8 {
        seq!['\\', 'b']
    } else if code == 9 {
        seq!['\\', 't']
    } else if code == 10 {
        seq!['\\', 'n']
    } else if code == 12 {
        seq!['\\', 'f']
    } else if code == 13 {
        seq!['\\', 'r']
    } else if code < 32 {
        seq!['\\', 'u', '0', '0', hex_char(code as int / 16), hex_char(code as int % 16)]
    } else {
        seq![c]
    }
}

/// The characters of a text, each escaped.
pub open spec fn escaped(s: Seq<char>) -> Seq<char>
    decreases s.len(),
{
    if s.len() == 0 {
        Seq::empty()
    } else {
        escaped(s.drop_last()) + escaped_char(s.last())
    }
}

/// A text as a JSON string.
pub open spec fn quoted(s: Seq<char>) -> Seq<char> {
    seq!['"'] + escaped(s) + seq!['"']
}

/// The JSON notation of a field.
pub open spec fn field_text(field: JsonField) -> Seq<char> {
    match field {
        JsonField::Null => "null"@,
        JsonField::Bool(true) => "true"@,
        JsonField::Bool(false) => "false"@,
        JsonField::Unsigned(n) => text::decimal(n as nat),
        JsonField::Negative(n) => text::decimal_int(n as int),
        JsonField::Text(s) => quoted(s),
        JsonField::Other(t) => t,
    }
}

/// Whether a field is a scalar: no array, object or fraction.
pub open spec fn is_scalar(field: JsonField) -> bool {
    match field {
        JsonField::Other(_) => false,
        JsonField::Negative(n) => n < 0,
        _ => true,
    }
}

/// The members of an object in their notation, separated by commas.
pub open spec fn members_text(members: Seq<(Seq<char>, JsonField)>) -> Seq<char>
    decreases members.len(),
{
    if members.len() == 0 {
        Seq::empty()
    } else {
        let last = quoted(members.last().0) + seq![':'] + field_text(members.last().1);
        if members.len() == 1 {
            last
        } else {
            members_text(members.drop_last()) + seq![','] + last
        }
    }
}

/// An object with the members, in their order and without white space.
pub open spec fn object_text(members: Seq<(Seq<char>, JsonField)>) -> Seq<char> {
    seq!['{'] + members_text(members) + seq!['}']
}

/// The mapping that the members describe.
pub open spec fn members_map(members: Seq<(Seq<char>, JsonField)>) -> Map<Seq<char>, JsonField>
    decreases members.len(),
{
    if members.len() == 0 {
        Map::empty()
    } else {
        members_map(members.drop_last()).insert(members.last().0, members.last().1)
    }
}

/// Whether the members can be read back: every field is a scalar, no key occurs twice, and the first
/// is not the one that `serde_json` keeps for itself.
pub open spec fn readable(members: Seq<(Seq<char>, JsonField)>) -> bool {
    &&& members.len() > 0 ==> members[0].0 != private_key()
    &&& forall|i: int| 0 <= i < members.len() ==> is_scalar((#[trigger] members[i]).1)
    &&& forall|i: int, j: int|
        0 <= i < j < members.len() ==> (#[trigger] members[i]).0 != (#[trigger] members[j]).0
}

/// `serde_json::to_string` on a text writes it as a JSON string: the quote, the backslash and the
/// control characters escaped, every other character as it is. It does not fail on a text.
#[verifier::external_body]
fn quote(s: &str) -> (r: String)
    ensures
        r@ == quoted(s@),
{
    serde_json::to_string(s).expect("a text can be written as JSON")
}

/// Writes a flat JSON object, member by member.
pub struct ObjectWriter {
    text: String,
    members: Ghost<Seq<(Seq<char>, JsonField)>>,
}

impl ObjectWriter {
    #[verifier::type_invariant]
    spec fn text_is_members(self) -> bool {
        self.text@ == members_text(self.members@)
    }

    /// The members written so far.
    pub closed spec fn members(&self) -> Seq<(Seq<char>, JsonField)> {
        self.members@
    }

    /// An object without members.
    pub fn new() -> (r: ObjectWriter)
        ensures
            r.members() == Seq::<(Seq<char>, JsonField)>::empty(),
    {
        ObjectWriter { text: String::new(), members: Ghost(Seq::empty()) }
    }

    /// Adds a member.
    pub fn member(self, key: &str, value: Scalar) -> (r: ObjectWriter)
        ensures
            r.members() == self.members().push((key@, value.field())),
    {
        proof {
            use_type_invariant(&self);
        }
        let ghost before = self.members@;
        let ghost after = before.push((key@, value.field()));
        let mut text = self.text;
        let first = text.as_str().is_empty();
        proof {
            lemma_members_text_len(before);
            assert(after.drop_last() =~= before);
        }
        if !first {
            text.push(',');
        }
        let name = quote(key);
        text.append(name.as_str());
        text.push(':');
        match &value {
            Scalar::Null => text.append("null"),
            Scalar::Unsigned(n) => {
                let digits = text::u64_text(*n);
                text.append(digits.as_str())
            },
            Scalar::Signed(n) => {
                let digits = text::i64_text(*n);
                text.append(digits.as_str())
            },
            Scalar::Text(s) => {
                let string = quote(s.as_str());
                text.append(string.as_str())
            },
        }
        proof {
            let last = quoted(key@) + seq![':'] + field_text(value.field());
            if before.len() == 0 {
                assert(text@ =~= last);
            } else {
                assert(text@ =~= members_text(before) + seq![','] + last);
            }
        }
        ObjectWriter { text, members: Ghost(after) }
    }

    /// The whole object.
    pub fn finish(self) -> (r: String)
        ensures
            r@ == object_text(self.members()),
    {
        proof {
            use_type_invariant(&self);
        }
        let mut out = String::new();
        out.push('{');
        out.append(self.text.as_str());
        out.push('}');
        proof {
            assert(out@ =~= object_text(self.members@));
        }
        out
    }
}

proof fn lemma_members_text_len(members: Seq<(Seq<char>, JsonField)>)
    ensures
        members_text(members).len() == 0 <==> members.len() == 0,
{
}

/// A scalar holding a text.
pub fn text_scalar(s: &str) -> (r: Scalar)
    ensures
        r.field() == JsonField::Text(s@),
{
    Scalar::Text(s.to_owned())
}

/// A scalar holding a text, or `null` where there is none.
pub fn optional_scalar(s: &Option<String>) -> (r: Scalar)
    ensures
        r.field() == optional_field(
            match s {
                Some(t) => Some(t@),
                None => None,
            },
        ),
{
    match s {
        Some(t) => Scalar::Text(t.clone()),
        None => Scalar::Null,
    }
}

// ---------------------------------------------------------------------------------------------
// Places in a text
// ---------------------------------------------------------------------------------------------

/// White space between the parts of a JSON text.
pub open spec fn is_space(c: char) -> bool {
    c == ' ' || c == '\n' || c == '\t' || c == '\r'
}

/// The first place from one on where no white space stands.
pub open spec fn past_space(s: Seq<char>, i: nat) -> nat
    decreases s.len() - i,
{
    if i < s.len() && is_space(s[i as int]) {
        past_space(s, i + 1)
    } else {
        i
    }
}

/// Finds the first place from one on where no white space stands.
pub fn skip_space(chars: &Vec<char>, i: usize) -> (r: usize)
    requires
        i <= chars@.len(),
    ensures
        r == past_space(chars@, i as nat),
        i <= r <= chars@.len(),
{
    let mut k: usize = i;
    while k < chars.len() && (chars[k] == ' ' || chars[k] == '\n' || chars[k] == '\t' || chars[k]
        == '\r')
        invariant
            i <= k <= chars@.len(),
            past_space(chars@, k as nat) == past_space(chars@, i as nat),
        decreases chars@.len() - k,
    {
        k = k + 1;
    }
    k
}

/// How many bytes a character takes.
pub open spec fn char_bytes(c: char) -> nat {
    if (c as u32) < 0x80 {
        1
    } else if (c as u32) < 0x800 {
        2
    } else if (c as u32) < 0x1_0000 {
        3
    } else {
        4
    }
}

fn bytes_of_char(c: char) -> (r: u8)
    ensures
        r == char_bytes(c),
{
    let code: u32 = c as u32;
    if code < 0x80 {
        1
    } else if code < 0x800 {
        2
    } else if code < 0x1_0000 {
        3
    } else {
        4
    }
}

/// The line, counted from one, and the column, counted in bytes, at the end of a text.
pub open spec fn position(s: Seq<char>) -> (nat, nat)
    decreases s.len(),
{
    if s.len() == 0 {
        (1, 0)
    } else {
        let before = position(s.drop_last());
        if s.last() == '\n' {
            (before.0 + 1, 0)
        } else {
            (before.0, before.1 + char_bytes(s.last()))
        }
    }
}

/// A message that says where in a text it applies: at the end of what was read.
pub open spec fn located(message: Seq<char>, read: Seq<char>) -> Seq<char> {
    message + " at line "@ + text::decimal(position(read).0) + " column "@ + text::decimal(
        position(read).1,
    )
}

/// Makes a message that says where in a text it applies: after so many characters.
pub fn locate(message: &str, chars: &Vec<char>, read: usize) -> (r: String)
    requires
        read <= chars@.len(),
    ensures
        r@ == located(message@, chars@.take(read as int)),
{
    let mut line: u128 = 1;
    let mut column: u128 = 0;
    let mut i: usize = 0;
    while i < read
        invariant
            i <= read <= chars@.len(),
            (line as nat, column as nat) == position(chars@.take(i as int)),
            line <= 1 + i,
            column <= 4 * i,
        decreases read - i,
    {
        proof {
            assert(chars@.take(i + 1).drop_last() =~= chars@.take(i as int));
        }
        if chars[i] == '\n' {
            line = line + 1;
            column = 0;
        } else {
            column = column + bytes_of_char(chars[i]) as u128;
        }
        i = i + 1;
    }
    let mut out = message.to_owned();
    out.append(" at line ");
    let number = text::u128_text(line);
    out.append(number.as_str());
    out.append(" column ");
    let number = text::u128_text(column);
    out.append(number.as_str());
    out
}

/// White space that takes as many bytes and lines as a character.
pub open spec fn blank_char(c: char) -> Seq<char> {
    if c == '\n' {
        seq!['\n']
    } else {
        Seq::new(char_bytes(c), |i: int| ' ')
    }
}

/// White space that takes as many bytes and lines as a text.
pub open spec fn blanked(s: Seq<char>) -> Seq<char>
    decreases s.len(),
{
    if s.len() == 0 {
        Seq::empty()
    } else {
        blanked(s.drop_last()) + blank_char(s.last())
    }
}

/// Whether a text consists of spaces and line ends.
pub open spec fn is_blank(s: Seq<char>) -> bool {
    forall|i: int| 0 <= i < s.len() ==> (#[trigger] s[i] == ' ' || s[i] == '\n')
}

/// What stands in a text from a place on, at the same line and column as in the text: what comes
/// before is left blank.
pub open spec fn placed(s: Seq<char>, i: nat) -> Seq<char> {
    blanked(s.take(i as int)) + s.skip(i as int)
}

/// Blanking leaves a blank text.
pub proof fn blanked_is_blank(s: Seq<char>)
    ensures
        is_blank(blanked(s)),
    decreases s.len(),
{
    if s.len() > 0 {
        blanked_is_blank(s.drop_last());
    }
}

/// Makes the text that holds what stands in a text from a place on, at the same line and column.
pub fn place(chars: &Vec<char>, i: usize) -> (r: String)
    requires
        i <= chars@.len(),
    ensures
        r@ == placed(chars@, i as nat),
{
    let mut out = String::new();
    let mut k: usize = 0;
    while k < i
        invariant
            k <= i <= chars@.len(),
            out@ == blanked(chars@.take(k as int)),
        decreases i - k,
    {
        proof {
            assert(chars@.take(k + 1).drop_last() =~= chars@.take(k as int));
        }
        let ghost before = out@;
        let c = chars[k];
        if c == '\n' {
            out.push('\n');
            proof {
                assert(out@ =~= before + blank_char(c));
            }
        } else {
            let width: u8 = bytes_of_char(c);
            let mut n: u8 = 0;
            while n < width
                invariant
                    n <= width,
                    out@ == before + Seq::new(n as nat, |j: int| ' '),
                decreases width - n,
            {
                out.push(' ');
                n = n + 1;
                proof {
                    assert(out@ =~= before + Seq::new(n as nat, |j: int| ' '));
                }
            }
        }
        k = k + 1;
    }
    let rest = text::string_of(chars, i, chars.len());
    out.append(rest.as_str());
    proof {
        assert(chars@.subrange(i as int, chars@.len() as int) =~= chars@.skip(i as int));
    }
    out
}

// ---------------------------------------------------------------------------------------------
// Reading one value
// ---------------------------------------------------------------------------------------------

/// The text of the JSON value that stands first in a text, as `serde_json` finds it, if it finds one.
pub uninterp spec fn json_first(text: Seq<char>) -> Option<Seq<char>>;

/// What `serde_json` makes of the value that stands first in a text where a string is asked for.
pub uninterp spec fn json_string(text: Seq<char>) -> Result<Seq<char>, Seq<char>>;

/// What `serde_json` makes of the value that stands first in a text where a string or `null` is
/// asked for.
pub uninterp spec fn json_optional_string(text: Seq<char>) -> Result<Option<Seq<char>>, Seq<char>>;

/// What `serde_json` makes of the value that stands first in a text where an integer of 64 bits with
/// a sign is asked for.
pub uninterp spec fn json_integer(text: Seq<char>) -> Result<i64, Seq<char>>;

/// Whether a value that is no string ends where this follows.
pub open spec fn ends_value(rest: Seq<char>) -> bool {
    rest.len() == 0 || rest[0] == ',' || rest[0] == '}' || rest[0] == ']' || rest[0] == ':'
}

/// Whether this is right for the first value of a text: without white space before it, it is what
/// the text begins with, and a scalar is found as it is written.
pub open spec fn is_first(text: Seq<char>, first: Option<Seq<char>>) -> bool {
    &&& first is Some && text.len() > 0 && !is_space(text[0]) ==> {
        &&& 0 < first->0.len() <= text.len()
        &&& first->0 == text.take(first->0.len() as int)
    }
    &&& forall|field: JsonField, rest: Seq<char>|
        #[trigger] (field_text(field) + rest) == text && is_scalar(field) && ends_value(rest)
            ==> first == Some(field_text(field))
}

/// The `StreamDeserializer` of `serde_json` finds the values in a text one after the other. The
/// first is handed out as a `RawValue`, which keeps its text without the white space around it.
/// A scalar is found as it is written, where a comma, a colon or a closing bracket follows.
#[verifier::external_body]
pub(crate) fn first_value(text: &str) -> (r: Option<String>)
    ensures
        text::optional_text(r) == json_first(text@),
        is_first(text@, text::optional_text(r)),
{
    serde_json::Deserializer::from_str(text)
        .into_iter::<Box<serde_json::value::RawValue>>()
        .next()
        .and_then(|first| first.ok())
        .map(|raw| raw.get().to_string())
}

/// Whether this is what reading a string comes to: one that is written is read back.
pub open spec fn string_reads_back(
    text: Seq<char>,
    outcome: Result<Seq<char>, Seq<char>>,
) -> bool {
    forall|pad: Seq<char>, s: Seq<char>, rest: Seq<char>|
        #[trigger] (pad + quoted(s) + rest) == text && is_blank(pad) ==> outcome == Ok::<
            Seq<char>,
            Seq<char>,
        >(s)
}

/// `String::deserialize` on the `Deserializer` of `serde_json` reads a string, or says why it cannot
/// and where. What follows the string is not looked at.
#[verifier::external_body]
pub(crate) fn string_first(text: &str) -> (r: Result<String, String>)
    ensures
        text::text_or_reason(r) == json_string(text@),
        string_reads_back(text@, text::text_or_reason(r)),
{
    serde::Deserialize::deserialize(&mut serde_json::Deserializer::from_str(text))
        .map_err(|e: serde_json::Error| e.to_string())
}

/// What came of reading a string or `null`.
pub open spec fn optional_or_reason(r: Result<Option<String>, String>) -> Result<
    Option<Seq<char>>,
    Seq<char>,
> {
    match r {
        Ok(s) => Ok(text::optional_text(s)),
        Err(reason) => Err(reason@),
    }
}

/// Whether this is what reading a string or `null` comes to: one that is written is read back.
pub open spec fn optional_reads_back(
    text: Seq<char>,
    outcome: Result<Option<Seq<char>>, Seq<char>>,
) -> bool {
    forall|pad: Seq<char>, s: Option<Seq<char>>, rest: Seq<char>|
        #[trigger] (pad + field_text(optional_field(s)) + rest) == text && is_blank(pad)
            && ends_value(rest) ==> outcome == Ok::<Option<Seq<char>>, Seq<char>>(s)
}

/// `Option::<String>::deserialize` on the `Deserializer` of `serde_json` reads a string or `null`, or
/// says why it cannot and where. What follows is not looked at.
#[verifier::external_body]
pub(crate) fn optional_string_first(text: &str) -> (r: Result<Option<String>, String>)
    ensures
        optional_or_reason(r) == json_optional_string(text@),
        optional_reads_back(text@, optional_or_reason(r)),
{
    serde::Deserialize::deserialize(&mut serde_json::Deserializer::from_str(text))
        .map_err(|e: serde_json::Error| e.to_string())
}

/// What came of reading an integer.
pub open spec fn integer_or_reason(r: Result<i64, String>) -> Result<i64, Seq<char>> {
    match r {
        Ok(n) => Ok(n),
        Err(reason) => Err(reason@),
    }
}

/// Whether this is what reading an integer comes to: one that is written is read back.
pub open spec fn integer_reads_back(text: Seq<char>, outcome: Result<i64, Seq<char>>) -> bool {
    forall|pad: Seq<char>, n: i64, rest: Seq<char>|
        #[trigger] (pad + field_text(integer_field(n as int)) + rest) == text && is_blank(pad)
            && ends_value(rest) ==> outcome == Ok::<i64, Seq<char>>(n)
}

/// `i64::deserialize` on the `Deserializer` of `serde_json` reads an integer, or says why it cannot
/// and where. What follows the number is not looked at.
#[verifier::external_body]
pub(crate) fn integer_first(text: &str) -> (r: Result<i64, String>)
    ensures
        integer_or_reason(r) == json_integer(text@),
        integer_reads_back(text@, integer_or_reason(r)),
{
    serde::Deserialize::deserialize(&mut serde_json::Deserializer::from_str(text))
        .map_err(|e: serde_json::Error| e.to_string())
}

/// How many characters the JSON value at a place takes, if one stands there.
pub open spec fn value_len(s: Seq<char>, i: nat) -> Option<nat> {
    match json_first(s.skip(i as int)) {
        Some(first) => if i + first.len() <= s.len() {
            Some(first.len())
        } else {
            None
        },
        None => None,
    }
}

/// Tells how many characters the JSON value at a place takes.
pub fn measure_value(chars: &Vec<char>, i: usize) -> (r: Option<usize>)
    requires
        i <= chars@.len(),
    ensures
        match r {
            Some(n) => value_len(chars@, i as nat) == Some(n as nat) && i + n <= chars@.len(),
            None => value_len(chars@, i as nat) is None,
        },
        forall|field: JsonField, rest: Seq<char>|
            #[trigger] (field_text(field) + rest) == chars@.skip(i as int) && is_scalar(field)
                && ends_value(rest) ==> r is Some && r->0 == field_text(field).len(),
{
    let rest = text::string_of(chars, i, chars.len());
    proof {
        assert(chars@.subrange(i as int, chars@.len() as int) =~= chars@.skip(i as int));
    }
    let r = match first_value(rest.as_str()) {
        Some(first) => {
            let n: usize = text::chars_of(first.as_str()).len();
            if n <= chars.len() - i {
                Some(n)
            } else {
                None
            }
        },
        None => None,
    };
    proof {
        assert forall|field: JsonField, rest: Seq<char>|
            #[trigger] (field_text(field) + rest) == chars@.skip(i as int) && is_scalar(field)
                && ends_value(rest) implies r is Some && r->0 == field_text(field).len() by {
            assert((field_text(field) + rest).len() == chars@.len() - i);
        }
    }
    r
}

// ---------------------------------------------------------------------------------------------
// Documents
// ---------------------------------------------------------------------------------------------

/// A JSON document of `serde_json`.
#[verifier::external_type_specification]
#[verifier::external_body]
pub struct ExJsonValue(serde_json::Value);

/// What a document holds.
pub uninterp spec fn json_view(v: serde_json::Value) -> JsonDocument;

/// What `serde_json::from_str` makes of a text: the document, or why it is not one.
pub uninterp spec fn json_read(text: Seq<char>) -> Result<JsonDocument, Seq<char>>;

/// The text that `serde_json::to_string` writes for an object.
pub uninterp spec fn json_object_text(fields: Map<Seq<char>, JsonField>) -> Seq<char>;

/// The text of a document.
pub open spec fn written(document: JsonDocument) -> Seq<char> {
    match document {
        JsonDocument::Object(fields) => json_object_text(fields),
        JsonDocument::Other(text) => text,
    }
}

/// What came of reading a document: the document, or the reason.
pub open spec fn outcome(r: Result<serde_json::Value, String>) -> Result<JsonDocument, Seq<char>> {
    match r {
        Ok(v) => Ok(json_view(v)),
        Err(reason) => Err(reason@),
    }
}

/// Whether an outcome is right for a text that `object_text` may have written: an object whose
/// members are readable is read as an object with those members.
pub open spec fn reads_back(
    text: Seq<char>,
    outcome: Result<JsonDocument, Seq<char>>,
) -> bool {
    forall|members: Seq<(Seq<char>, JsonField)>|
        #[trigger] object_text(members) == text && readable(members) ==> outcome == Ok::<
            JsonDocument,
            Seq<char>,
        >(JsonDocument::Object(members_map(members)))
}

/// `serde_json::from_str` reads a document, or says why it cannot. An object in the notation of
/// `object_text`, whose members are readable, is read as an object with those members.
#[verifier::external_body]
pub(crate) fn parse(text: &str) -> (r: Result<serde_json::Value, String>)
    ensures
        outcome(r) == json_read(text@),
        reads_back(text@, outcome(r)),
{
    serde_json::from_str(text).map_err(|e| e.to_string())
}

/// The value found under a key of a document.
#[derive(Debug)]
pub enum FieldValue {
    Missing,
    Null,
    Bool(bool),
    Unsigned(u64),
    Negative(i64),
    Text(String),
    /// Any other number, an array or an object.
    Other,
}

impl FieldValue {
    /// Whether this is what is found where there is such a field, or none.
    pub open spec fn stands_for(&self, field: Option<JsonField>) -> bool {
        match self {
            FieldValue::Missing => field is None,
            FieldValue::Null => field == Some(JsonField::Null),
            FieldValue::Bool(b) => field == Some(JsonField::Bool(*b)),
            FieldValue::Unsigned(n) => field == Some(JsonField::Unsigned(*n)),
            FieldValue::Negative(n) => field == Some(JsonField::Negative(*n)),
            FieldValue::Text(s) => field == Some(JsonField::Text(s@)),
            FieldValue::Other => field matches Some(JsonField::Other(_)),
        }
    }
}

/// The field under a key, if there is one.
pub open spec fn lookup(fields: Map<Seq<char>, JsonField>, key: Seq<char>) -> Option<JsonField> {
    if fields.contains_key(key) {
        Some(fields[key])
    } else {
        None
    }
}

/// The integer in a field, if it holds one of 64 bits with a sign.
pub open spec fn field_integer(field: Option<JsonField>) -> Option<i64> {
    match field {
        Some(JsonField::Unsigned(n)) => if n <= i64::MAX {
            Some(n as i64)
        } else {
            None
        },
        Some(JsonField::Negative(n)) => Some(n),
        _ => None,
    }
}

/// Reads the integer in a field.
pub fn integer_of(value: FieldValue) -> (r: Option<i64>)
    ensures
        forall|field: Option<JsonField>| #[trigger]
            value.stands_for(field) ==> r == field_integer(field),
{
    match value {
        FieldValue::Unsigned(n) => if n <= i64::MAX as u64 {
            Some(n as i64)
        } else {
            None
        },
        FieldValue::Negative(n) => Some(n),
        _ => None,
    }
}

/// `serde_json::Value::get` looks a key up. The variant that it finds is handed on as it is; of a
/// number, `as_u64` and `as_i64` tell which integer it is, a negative one only where `as_u64`
/// knows none.
#[verifier::external_body]
pub(crate) fn field_value(v: &serde_json::Value, key: &str) -> (r: FieldValue)
    ensures
        r.stands_for(lookup(json_view(*v).fields(), key@)),
        r matches FieldValue::Negative(n) ==> n < 0,
{
    match v.get(key) {
        None => FieldValue::Missing,
        Some(serde_json::Value::Null) => FieldValue::Null,
        Some(serde_json::Value::Bool(b)) => FieldValue::Bool(*b),
        Some(serde_json::Value::Number(n)) => match (n.as_u64(), n.as_i64()) {
            (Some(u), _) => FieldValue::Unsigned(u),
            (None, Some(i)) => FieldValue::Negative(i),
            (None, None) => FieldValue::Other,
        },
        Some(serde_json::Value::String(s)) => FieldValue::Text(s.clone()),
        Some(serde_json::Value::Array(_)) => FieldValue::Other,
        Some(serde_json::Value::Object(_)) => FieldValue::Other,
    }
}

/// A document with a field under a key, in place of the one that was there. A document that is no
/// object stays as it is.
pub open spec fn with_field(
    document: JsonDocument,
    key: Seq<char>,
    field: JsonField,
) -> JsonDocument {
    match document {
        JsonDocument::Object(fields) => JsonDocument::Object(fields.insert(key, field)),
        JsonDocument::Other(text) => JsonDocument::Other(text),
    }
}

/// `insert` on the map of `serde_json::Value::as_object_mut` puts a value under a key, in place of
/// the one that was there. A document that is no object stays as it is.
#[verifier::external_body]
pub(crate) fn put(v: &mut serde_json::Value, key: &str, value: Scalar)
    ensures
        json_view(*final(v)) == with_field(json_view(*old(v)), key@, value.field()),
{
    let value = match value {
        Scalar::Null => serde_json::Value::Null,
        Scalar::Unsigned(n) => serde_json::Value::from(n),
        Scalar::Signed(n) => serde_json::Value::from(n),
        Scalar::Text(s) => serde_json::Value::from(s),
    };
    if let Some(map) = v.as_object_mut() {
        map.insert(key.to_string(), value);
    }
}

/// `serde_json::to_string` writes a document. It does not fail on one. What it writes of an object
/// of scalars is read as that object again, where no key is the one that `serde_json` keeps for
/// itself; what it writes of anything but an object is not read as an object. Of an object that
/// holds arrays, objects or fractions it is not said here that it is read again.
#[verifier::external_body]
pub(crate) fn document_text(v: &serde_json::Value) -> (r: String)
    ensures
        r@ == match json_view(*v) {
            JsonDocument::Object(fields) => json_object_text(fields),
            JsonDocument::Other(text) => text,
        },
        json_view(*v).is_flat() ==> json_read(r@) is Ok && json_read(r@)->Ok_0 == json_view(*v),
        json_view(*v) is Other && json_read(r@) is Ok ==> json_read(r@)->Ok_0 is Other,
{
    serde_json::to_string(v).expect("a document can be written as JSON")
}

// ---------------------------------------------------------------------------------------------
// What these come to
// ---------------------------------------------------------------------------------------------

/// An object lists its members one behind the other: another member comes before the closing brace,
/// behind a comma unless it is the first.
pub proof fn an_object_lists_its_members(
    members: Seq<(Seq<char>, JsonField)>,
    key: Seq<char>,
    field: JsonField,
)
    ensures
        object_text(Seq::empty()) == seq!['{', '}'],
        members.len() == 0 ==> object_text(members.push((key, field))) == seq!['{'] + quoted(key)
            + seq![':'] + field_text(field) + seq!['}'],
        members.len() > 0 ==> object_text(members.push((key, field))) == object_text(
            members,
        ).drop_last() + seq![','] + quoted(key) + seq![':'] + field_text(field) + seq!['}'],
{
    let more = members.push((key, field));
    assert(more.drop_last() =~= members);
    assert(object_text(Seq::empty()) =~= seq!['{', '}']);
    if members.len() == 0 {
        assert(object_text(more) =~= seq!['{'] + quoted(key) + seq![':'] + field_text(field)
            + seq!['}']);
    } else {
        assert(object_text(members).drop_last() =~= seq!['{'] + members_text(members));
        assert(object_text(more) =~= object_text(members).drop_last() + seq![','] + quoted(key)
            + seq![':'] + field_text(field) + seq!['}']);
    }
}

/// A number is written in decimal, with a sign where it is negative, a text in quotation marks, and
/// what is missing as `null`.
pub proof fn fields_are_written(n: i64, s: Seq<char>)
    ensures
        n >= 0 ==> field_text(integer_field(n as int)) == text::decimal(n as nat),
        n < 0 ==> field_text(integer_field(n as int)) == seq!['-'] + text::decimal((-n) as nat),
        field_text(optional_field(Some(s))) == quoted(s),
        field_text(optional_field(None)) == "null"@,
        quoted(s).len() >= 2,
        quoted(s)[0] == '"',
        quoted(s).last() == '"',
{
}

/// In a quoted text no quotation mark stands without a backslash before it, and no control character
/// stands at all.
pub proof fn quoted_texts_are_closed_once(s: Seq<char>)
    ensures
        forall|i: int| 0 <= i < escaped(s).len() ==> #[trigger] escaped(s)[i] as u32 >= 32,
        forall|i: int|
            0 <= i < escaped(s).len() && #[trigger] escaped(s)[i] == '"' ==> i > 0 && escaped(s)[i
                - 1] == '\\',
    decreases s.len(),
{
    if s.len() > 0 {
        quoted_texts_are_closed_once(s.drop_last());
        let front = escaped(s.drop_last());
        let last = escaped_char(s.last());
        lemma_escaped_char(s.last());
        assert forall|i: int| 0 <= i < escaped(s).len() implies #[trigger] escaped(s)[i] as u32 >= 32
            && (escaped(s)[i] == '"' ==> i > 0 && escaped(s)[i - 1] == '\\') by {
            if i < front.len() {
                assert(escaped(s)[i] == front[i]);
                if i > 0 {
                    assert(escaped(s)[i - 1] == front[i - 1]);
                }
            } else {
                assert(escaped(s)[i] == last[i - front.len()]);
                if i > front.len() {
                    assert(escaped(s)[i - 1] == last[i - 1 - front.len()]);
                }
            }
        }
    }
}

proof fn lemma_escaped_char(c: char)
    ensures
        forall|i: int| 0 <= i < escaped_char(c).len() ==> #[trigger] escaped_char(c)[i] as u32 >= 32,
        forall|i: int|
            0 <= i < escaped_char(c).len() && #[trigger] escaped_char(c)[i] == '"' ==> i > 0
                && escaped_char(c)[i - 1] == '\\',
{
}

/// Only the four blanks of JSON are passed over, and all of them up to the next other character.
pub proof fn only_blanks_are_passed_over(s: Seq<char>, i: nat)
    requires
        i <= s.len(),
    ensures
        i <= past_space(s, i) <= s.len(),
        forall|k: int|
            i <= k < past_space(s, i) ==> #[trigger] s[k] == ' ' || s[k] == '\n' || s[k] == '\t'
                || s[k] == '\r',
        past_space(s, i) < s.len() ==> s[past_space(s, i) as int] != ' ' && s[past_space(
            s,
            i,
        ) as int] != '\n' && s[past_space(s, i) as int] != '\t' && s[past_space(s, i) as int]
            != '\r',
    decreases s.len() - i,
{
    if i < s.len() && is_space(s[i as int]) {
        only_blanks_are_passed_over(s, i + 1);
    }
}

/// A text begins on the first line, before the first column. A line break begins another line, and
/// every other character moves on by the bytes that it takes.
pub proof fn places_are_counted_in_lines_and_bytes(s: Seq<char>, c: char)
    ensures
        position(Seq::empty()) == (1nat, 0nat),
        position(s.push('\n')) == (position(s).0 + 1, 0nat),
        c != '\n' ==> position(s.push(c)) == (
            position(s).0,
            position(s).1 + vstd::utf8::encode_utf8(seq![c]).len(),
        ),
{
    assert(s.push('\n').drop_last() =~= s);
    assert(s.push(c).drop_last() =~= s);
    lemma_char_bytes(c);
}

proof fn lemma_char_bytes(c: char)
    ensures
        vstd::utf8::encode_utf8(seq![c]).len() == char_bytes(c),
{
    let one = seq![c];
    assert(one.drop_first() =~= Seq::empty());
    reveal_with_fuel(vstd::utf8::encode_utf8, 2);
}

proof fn lemma_blanks_move_on(s: Seq<char>, n: nat)
    ensures
        position(s + Seq::new(n, |i: int| ' ')) == (position(s).0, position(s).1 + n),
    decreases n,
{
    let blanks = Seq::new(n, |i: int| ' ');
    if n == 0 {
        assert(s + blanks =~= s);
    } else {
        let fewer = Seq::new((n - 1) as nat, |i: int| ' ');
        lemma_blanks_move_on(s, (n - 1) as nat);
        assert((s + blanks).drop_last() =~= s + fewer);
        assert((s + blanks).last() == ' ');
    }
}

/// Blanking out what comes before a place keeps the line and the column of the place.
pub proof fn blanks_keep_the_place(s: Seq<char>)
    ensures
        position(blanked(s)) == position(s),
    decreases s.len(),
{
    if s.len() > 0 {
        let front = blanked(s.drop_last());
        blanks_keep_the_place(s.drop_last());
        if s.last() == '\n' {
            assert(blanked(s) =~= front.push('\n'));
            assert(front.push('\n').drop_last() =~= front);
        } else {
            lemma_blanks_move_on(front, char_bytes(s.last()));
        }
    }
}

/// What follows a place stays as it is where what comes before is blanked out.
pub proof fn the_rest_stays_in_place(s: Seq<char>, i: nat)
    requires
        i <= s.len(),
    ensures
        exists|before: Seq<char>|
            {
                &&& placed(s, i) == #[trigger] (before + s.skip(i as int))
                &&& position(before) == position(s.take(i as int))
                &&& forall|k: int| 0 <= k < before.len() ==> #[trigger] before[k] == ' ' || before[k]
                    == '\n'
            },
{
    let before = blanked(s.take(i as int));
    blanks_keep_the_place(s.take(i as int));
    blanked_is_blank(s.take(i as int));
    assert(placed(s, i) == before + s.skip(i as int));
}

/// The members of an object can be looked up by their keys: the last one with a key counts.
pub proof fn the_last_member_counts(
    members: Seq<(Seq<char>, JsonField)>,
    key: Seq<char>,
    field: JsonField,
    other: Seq<char>,
)
    ensures
        lookup(members_map(Seq::empty()), other) is None,
        lookup(members_map(members.push((key, field))), key) == Some(field),
        other != key ==> lookup(members_map(members.push((key, field))), other) == lookup(
            members_map(members),
            other,
        ),
{
    assert(members.push((key, field)).drop_last() =~= members);
}

/// A value takes as many characters as the first one that stands at its place, and none where no value
/// stands there or it does not end within the text.
pub proof fn a_value_takes_its_characters(s: Seq<char>, i: nat, n: nat)
    ensures
        value_len(s, i) == Some(n) <==> json_first(s.skip(i as int)) is Some && json_first(
            s.skip(i as int),
        )->0.len() == n && i + n <= s.len(),
{
}

/// The integer in a field is the one that was put there.
pub proof fn integers_are_read_back(n: i64, m: u64, s: Seq<char>)
    ensures
        field_integer(Some(integer_field(n as int))) == Some(n),
        m > i64::MAX ==> field_integer(Some(JsonField::Unsigned(m))) is None,
        field_integer(Some(JsonField::Text(s))) is None,
        field_integer(Some(JsonField::Null)) is None,
        field_integer(None) is None,
{
}

} // verus!
