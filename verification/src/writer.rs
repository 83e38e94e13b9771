//! The JSON text writer.

use vstd::prelude::*;
use crate::errors::SerializeError;
use crate::numbers::{decimal, digits, itoa_format_i64, itoa_format_u64};
use crate::json_text::{escape_char, escape_chars, hex_digit_char, line_break, quoted, spaces, unicode_escape};

verus! {

/// What a writer holds, as mathematical values.
pub struct WriterView {
    pub text: Seq<char>,
    pub ensure_ascii: bool,
    pub indent: Option<u8>,
    pub level: nat,
    pub sort_keys: bool,
    /// What stands between two elements or members.
    pub item_separator: Seq<char>,
    /// What stands between a key and its value.
    pub key_separator: Seq<char>,
    /// The innermost container opened last has had no member yet.
    pub empty: bool,
}

impl WriterView {
    /// The same state with `s` appended to the text; the innermost
    /// container now has content.
    pub open spec fn append(self, s: Seq<char>) -> WriterView {
        WriterView { text: self.text + s, empty: false, ..self }
    }

    /// The two views have the same options: ASCII escaping, indentation,
    /// key sorting and separators.
    pub open spec fn same_options(self, other: WriterView) -> bool {
        &&& self.ensure_ascii == other.ensure_ascii
        &&& self.indent == other.indent
        &&& self.sort_keys == other.sort_keys
        &&& self.item_separator == other.item_separator
        &&& self.key_separator == other.key_separator
    }
}

/// The separators a writer starts with: `,` between items, and `:` between
/// a key and its value, followed by a space when the output is indented.
pub open spec fn default_key_separator(indent: Option<u8>) -> Seq<char> {
    if indent.is_some() {
        seq![':', ' ']
    } else {
        seq![':']
    }
}

/// A fresh writer with the given options and the default separators.
pub open spec fn fresh(ensure_ascii: bool, indent: Option<u8>, sort_keys: bool) -> WriterView {
    WriterView {
        text: Seq::empty(),
        ensure_ascii,
        indent,
        level: 0,
        sort_keys,
        item_separator: seq![','],
        key_separator: default_key_separator(indent),
        empty: false,
    }
}

/// A floating-point value with no JSON number form.
#[derive(PartialEq, Eq, Structural, Clone, Copy, Debug)]
pub enum NonFinite {
    NaN,
    PositiveInfinity,
    NegativeInfinity,
}

/// The token JavaScript, and Python's `json`, use for a non-finite value.
pub open spec fn non_finite_token(v: NonFinite) -> Seq<char> {
    match v {
        NonFinite::NaN => seq!['N', 'a', 'N'],
        NonFinite::PositiveInfinity => seq!['I', 'n', 'f', 'i', 'n', 'i', 't', 'y'],
        NonFinite::NegativeInfinity => seq!['-', 'I', 'n', 'f', 'i', 'n', 'i', 't', 'y'],
    }
}

/// In pretty mode, a line break and the indentation of the writer's level;
/// nothing in compact mode.
pub open spec fn indentation(v: WriterView) -> Seq<char> {
    match v.indent {
        Some(width) => line_break(v.level, width as nat),
        None => Seq::empty(),
    }
}

/// The writer after an opening bracket: in pretty mode one level deeper,
/// and with the new container still empty.
pub open spec fn opened(v: WriterView, bracket: char) -> WriterView {
    WriterView {
        text: v.text.push(bracket),
        level: if v.indent.is_some() { v.level + 1 } else { v.level },
        empty: true,
        ..v
    }
}

/// The writer after a closing bracket: in pretty mode one level up, and,
/// when the container has members, the bracket on a new line indented to
/// that level. An empty container closes right after its opening bracket.
pub open spec fn closed(v: WriterView, bracket: char) -> WriterView {
    let outer = WriterView {
        level: if v.indent.is_some() { (v.level - 1) as nat } else { v.level },
        empty: false,
        ..v
    };
    WriterView {
        text: v.text + (if v.empty { Seq::empty() } else { indentation(outer) }) + seq![bracket],
        ..outer
    }
}

/// The writer after the separator that comes before the member at
/// `index` of the innermost container: the item separator unless it is the
/// first, then, in pretty mode, a line break to the members' indentation.
pub open spec fn before_member(v: WriterView, index: int) -> WriterView {
    WriterView {
        text: v.text + (if index > 0 { v.item_separator } else { Seq::empty() }) + indentation(v),
        empty: false,
        ..v
    }
}

/// Opening and then closing a container leaves the writer at the level and
/// with the options it had, and writes the empty container as its two
/// brackets, in compact and in pretty mode alike.
pub proof fn lemma_empty_container(v: WriterView, open: char, close: char)
    ensures
        closed(opened(v, open), close).text == v.text + seq![open, close],
        closed(opened(v, open), close).level == v.level,
        closed(opened(v, open), close).same_options(v),
{
    assert(closed(opened(v, open), close).text =~= v.text + seq![open, close]);
}

/// Every writer step keeps the options: appending text, opening or closing
/// a container, and a member separator.
pub proof fn lemma_steps_keep_options(v: WriterView, s: Seq<char>, bracket: char, index: int)
    ensures
        v.append(s).same_options(v),
        opened(v, bracket).same_options(v),
        closed(v, bracket).same_options(v),
        before_member(v, index).same_options(v),
{
}

/// The options stay the same along any run of writer states in which each
/// step keeps them: whatever is written, a writer keeps escaping, indenting,
/// sorting and separating as it was set up to.
pub proof fn lemma_options_kept(states: Seq<WriterView>)
    requires
        states.len() > 0,
        forall|i: int| 0 <= i < states.len() - 1 ==> #[trigger] states[i].same_options(states[i + 1]),
    ensures
        states[0].same_options(states[states.len() - 1]),
    decreases states.len(),
{
    if states.len() > 1 {
        lemma_options_kept(states.drop_last());
        let k = states.len() - 2;
        assert(states.drop_last()[k] == states[k]);
        assert(states.drop_last()[0] == states[0]);
        assert(states[k].same_options(states[k + 1]));
    }
}

/// One step that a writer method takes: appending text (every `write_`
/// method of a scalar or string, the colon, `write_raw`), opening or closing
/// a container, a member separator, setting the separators, or replacing
/// the text through `buf_mut`.
pub enum WriterStep {
    Append(Seq<char>),
    Open(char),
    Close(char),
    Member(int),
    Separators(Seq<char>, Seq<char>),
    Replace(Seq<char>),
}

/// The writer after one step; each writer method's contract is one of
/// these.
pub open spec fn apply(v: WriterView, step: WriterStep) -> WriterView {
    match step {
        WriterStep::Append(s) => v.append(s),
        WriterStep::Open(b) => opened(v, b),
        WriterStep::Close(b) => closed(v, b),
        WriterStep::Member(i) => before_member(v, i),
        WriterStep::Separators(item, key) => WriterView { item_separator: item, key_separator: key, ..v },
        WriterStep::Replace(text) => WriterView { text: text, empty: false, ..v },
    }
}

/// The writer after a run of steps, in order.
pub open spec fn run(v: WriterView, steps: Seq<WriterStep>) -> WriterView
    decreases steps.len(),
{
    if steps.len() == 0 {
        v
    } else {
        apply(run(v, steps.drop_last()), steps.last())
    }
}

/// Whatever a writer is made to do, it keeps escaping non-ASCII text, being
/// pretty or compact, and sorting keys as it was created to:
/// `ensure_ascii()`, `is_pretty()` and `sort_keys()` answer the same after
/// any run of writer calls as right after the constructor.
pub proof fn lemma_run_keeps_mode(v: WriterView, steps: Seq<WriterStep>)
    ensures
        run(v, steps).ensure_ascii == v.ensure_ascii,
        run(v, steps).indent == v.indent,
        run(v, steps).sort_keys == v.sort_keys,
    decreases steps.len(),
{
    if steps.len() > 0 {
        lemma_run_keeps_mode(v, steps.drop_last());
    }
}

/// Direct JSON writer with ensure_ascii, indent, and sort_keys support.
pub struct JsonWriter {
    buf: String,
    ensure_ascii: bool,
    indent: Option<u8>,
    indent_level: usize,
    sort_keys: bool,
    item_separator: String,
    key_separator: String,
    container_empty: bool,
}

impl View for JsonWriter {
    type V = WriterView;

    closed spec fn view(&self) -> WriterView {
        WriterView {
            text: self.buf@,
            ensure_ascii: self.ensure_ascii,
            indent: self.indent,
            level: self.indent_level as nat,
            sort_keys: self.sort_keys,
            item_separator: self.item_separator@,
            key_separator: self.key_separator@,
            empty: self.container_empty,
        }
    }
}

impl JsonWriter {
    /// A compact writer that keeps non-ASCII characters and does not sort
    /// keys; `capacity` only reserves room for the text.
    pub fn new(capacity: usize) -> (w: Self)
        ensures
            w@ == fresh(false, None, false),
    {
        Self::with_options(capacity, false, None, false)
    }

    /// A writer with the given options: `ensure_ascii` escapes every
    /// character outside ASCII, `indent` turns on pretty printing with that
    /// many spaces per level, `sort_keys` is read by the code that writes
    /// dictionaries. The separators are `,` and `:`, the latter followed by a
    /// space when indented.
    pub fn with_options(capacity: usize, ensure_ascii: bool, indent: Option<u8>, sort_keys: bool) -> (w: Self)
        ensures
            w@ == fresh(ensure_ascii, indent, sort_keys),
    {
        let mut item_separator = String::new();
        item_separator.push(',');
        let mut key_separator = String::new();
        key_separator.push(':');
        if indent.is_some() {
            key_separator.push(' ');
        }
        let w = Self {
            buf: String::with_capacity(capacity),
            ensure_ascii,
            indent,
            indent_level: 0,
            sort_keys,
            item_separator,
            key_separator,
            container_empty: false,
        };
        assert(w@.item_separator =~= seq![',']);
        assert(w@.key_separator =~= default_key_separator(indent));
        w
    }

    /// Sets what stands between items and between a key and its value, as
    /// Python's `separators=(item, key)` does.
    pub fn set_separators(&mut self, item: &str, key: &str)
        ensures
            final(self)@ == (WriterView { item_separator: item@, key_separator: key@, ..old(self)@ }),
    {
        self.item_separator = item.to_owned();
        self.key_separator = key.to_owned();
    }

    /// The text written so far.
    pub fn into_string(self) -> (s: String)
        ensures
            s@ == self@.text,
    {
        self.buf
    }

    /// The text written so far, encoded in UTF-8.
    pub fn into_bytes(self) -> (bytes: Vec<u8>)
        ensures
            bytes@ == vstd::utf8::encode_utf8(self@.text),
    {
        self.buf.into_bytes()
    }

    /// The text itself, for appending to it directly; the options and the
    /// level stay as they are, and the innermost container counts as
    /// having content.
    pub fn buf_mut(&mut self) -> (buf: &mut String)
        ensures
            buf@ == old(self)@.text,
            final(self)@ == (WriterView { text: final(buf)@, empty: false, ..old(self)@ }),
    {
        self.container_empty = false;
        &mut self.buf
    }

    /// Whether non-ASCII characters are escaped.
    pub fn ensure_ascii(&self) -> (b: bool)
        ensures
            b == self@.ensure_ascii,
    {
        self.ensure_ascii
    }

    /// Whether dictionaries are to be written with sorted keys.
    pub fn sort_keys(&self) -> (b: bool)
        ensures
            b == self@.sort_keys,
    {
        self.sort_keys
    }

    /// Whether the output is indented.
    pub fn is_pretty(&self) -> (b: bool)
        ensures
            b == self@.indent.is_some(),
    {
        self.indent.is_some()
    }

    /// Appends text as it is, with no escaping: a number or another token
    /// that the caller has already rendered.
    pub fn write_raw(&mut self, s: &str)
        ensures
            final(self)@ == old(self)@.append(s@),
    {
        self.container_empty = false;
        self.buf.push_str(s);
    }

    /// In pretty mode, a line break and the indentation of the current level.
    fn write_indent(&mut self)
        ensures
            final(self)@ == old(self)@.append(indentation(old(self)@)),
    {
        self.container_empty = false;
        if let Some(indent) = self.indent {
            let ghost start = self@;
            self.buf.push('\n');
            let mut i: usize = 0;
            assert(self@.text =~= start.text + (seq!['\n'] + spaces(0)));
            while i < self.indent_level
                invariant
                    self.indent == Some(indent),
                    i <= self.indent_level == start.level,
                    self@ == start.append(seq!['\n'] + spaces((i * indent) as nat)),
                decreases self.indent_level - i,
            {
                let mut j: u8 = 0;
                while j < indent
                    invariant
                        self.indent == Some(indent),
                        i < self.indent_level == start.level,
                        j <= indent,
                        self@ == start.append(seq!['\n'] + spaces((i * indent + j) as nat)),
                    decreases indent - j,
                {
                    self.buf.push(' ');
                    assert(self@.text =~= start.text + (seq!['\n'] + spaces((i * indent + j + 1) as nat)));
                    j = j + 1;
                }
                assert((i + 1) * indent == i * indent + indent) by (nonlinear_arith);
                i = i + 1;
            }
            assert(self@.text =~= start.text + line_break(start.level, indent as nat));
        } else {
            assert(self@.text =~= old(self)@.text + Seq::<char>::empty());
        }
    }

    /// Writes `null`.
    pub fn write_none(&mut self)
        ensures
            final(self)@ == old(self)@.append(seq!['n', 'u', 'l', 'l']),
    {
        self.container_empty = false;
        self.buf.push('n');
        self.buf.push('u');
        self.buf.push('l');
        self.buf.push('l');
        assert(self@.text =~= old(self)@.text + seq!['n', 'u', 'l', 'l']);
    }

    /// Writes `true` or `false`.
    pub fn write_bool(&mut self, b: bool)
        ensures
            final(self)@ == old(self)@.append(if b { seq!['t', 'r', 'u', 'e'] } else { seq!['f', 'a', 'l', 's', 'e'] }),
    {
        self.container_empty = false;
        if b {
            self.buf.push('t');
            self.buf.push('r');
            self.buf.push('u');
            self.buf.push('e');
            assert(self@.text =~= old(self)@.text + seq!['t', 'r', 'u', 'e']);
        } else {
            self.buf.push('f');
            self.buf.push('a');
            self.buf.push('l');
            self.buf.push('s');
            self.buf.push('e');
            assert(self@.text =~= old(self)@.text + seq!['f', 'a', 'l', 's', 'e']);
        }
    }

    /// Opens an array; in pretty mode its elements sit one level deeper.
    pub fn write_array_open(&mut self)
        requires
            old(self)@.indent.is_some() ==> old(self)@.level < usize::MAX,
        ensures
            final(self)@ == opened(old(self)@, '['),
    {
        self.buf.push('[');
        if self.indent.is_some() {
            self.indent_level += 1;
        }
        self.container_empty = true;
    }

    fn close_with(&mut self, bracket: char)
        requires
            old(self)@.indent.is_some() ==> old(self)@.level > 0,
        ensures
            final(self)@ == closed(old(self)@, bracket),
    {
        let ghost start = self@;
        if self.indent.is_some() {
            self.indent_level -= 1;
        }
        let was_empty = self.container_empty;
        self.container_empty = false;
        if !was_empty {
            self.write_indent();
        }
        self.buf.push(bracket);
        assert(self@.text =~= closed(start, bracket).text);
    }

    /// Closes an array; in pretty mode, when it has elements, the bracket
    /// stands on a line of its own at the enclosing level.
    pub fn write_array_close(&mut self)
        requires
            old(self)@.indent.is_some() ==> old(self)@.level > 0,
        ensures
            final(self)@ == closed(old(self)@, ']'),
    {
        self.close_with(']');
    }

    /// Opens an object; in pretty mode its members sit one level deeper.
    pub fn write_object_open(&mut self)
        requires
            old(self)@.indent.is_some() ==> old(self)@.level < usize::MAX,
        ensures
            final(self)@ == opened(old(self)@, '{'),
    {
        self.buf.push('{');
        if self.indent.is_some() {
            self.indent_level += 1;
        }
        self.container_empty = true;
    }

    /// Closes an object; in pretty mode, when it has members, the brace
    /// stands on a line of its own at the enclosing level.
    pub fn write_object_close(&mut self)
        requires
            old(self)@.indent.is_some() ==> old(self)@.level > 0,
        ensures
            final(self)@ == closed(old(self)@, '}'),
    {
        self.close_with('}');
    }

    /// Writes what comes before the member at `index` of the innermost
    /// container: nothing before the first but, in pretty mode, a line break
    /// and the members' indentation; the item separator and that line break
    /// before every later one.
    pub fn write_member_separator(&mut self, index: usize)
        ensures
            final(self)@ == before_member(old(self)@, index as int),
    {
        let ghost start = self@;
        if index > 0 {
            self.buf.push_str(self.item_separator.as_str());
        }
        self.container_empty = false;
        self.write_indent();
        assert(self@.text =~= before_member(start, index as int).text);
    }

    /// Separates two elements or members: the item separator, and in pretty
    /// mode a line break to the members' indentation.
    pub fn write_comma(&mut self)
        ensures
            final(self)@ == before_member(old(self)@, 1),
    {
        self.write_member_separator(1);
    }

    /// Separates a key from its value with the key separator.
    pub fn write_colon(&mut self)
        ensures
            final(self)@ == old(self)@.append(old(self)@.key_separator),
    {
        self.container_empty = false;
        self.buf.push_str(self.key_separator.as_str());
    }

    /// Writes an integer in decimal.
    pub fn write_i64(&mut self, i: i64)
        ensures
            final(self)@ == old(self)@.append(decimal(i as int)),
    {
        self.container_empty = false;
        let mut buf = itoa::Buffer::new();
        self.buf.push_str(itoa_format_i64(&mut buf, i));
    }

    /// Writes an unsigned integer in decimal.
    pub fn write_u64(&mut self, u: u64)
        ensures
            final(self)@ == old(self)@.append(digits(u as nat)),
    {
        self.container_empty = false;
        let mut buf = itoa::Buffer::new();
        self.buf.push_str(itoa_format_u64(&mut buf, u));
    }

    /// Writes a dictionary key that is an integer: its decimal digits in
    /// quotes, since JSON keys are strings.
    pub fn write_int_key(&mut self, v: i64)
        ensures
            final(self)@ == old(self)@.append(seq!['"'] + decimal(v as int) + seq!['"']),
    {
        self.container_empty = false;
        self.buf.push('"');
        let mut buf = itoa::Buffer::new();
        self.buf.push_str(itoa_format_i64(&mut buf, v));
        self.buf.push('"');
        assert(self@.text =~= old(self)@.text + (seq!['"'] + decimal(v as int) + seq!['"']));
    }

    /// Writes a NaN or an infinity as `NaN`, `Infinity` or `-Infinity` when
    /// they are allowed; otherwise writes nothing and fails.
    pub fn write_non_finite(&mut self, v: NonFinite, allow_nan: bool) -> (r: Result<(), SerializeError>)
        ensures
            allow_nan ==> r is Ok && final(self)@ == old(self)@.append(non_finite_token(v)),
            !allow_nan ==> (r matches Err(SerializeError::NonFiniteFloat)) && final(self)@ == old(self)@,
    {
        if !allow_nan {
            return Err(SerializeError::NonFiniteFloat);
        }
        self.container_empty = false;
        match v {
            NonFinite::NaN => self.buf.push_str("NaN"),
            NonFinite::PositiveInfinity => self.buf.push_str("Infinity"),
            NonFinite::NegativeInfinity => self.buf.push_str("-Infinity"),
        }
        proof {
            reveal_strlit("NaN");
            reveal_strlit("Infinity");
            reveal_strlit("-Infinity");
        }
        assert(self@.text =~= old(self)@.text + non_finite_token(v));
        Ok(())
    }

    fn push_unicode_escape(&mut self, v: u32)
        requires
            v < 0x10000,
        ensures
            final(self)@ == old(self)@.append(unicode_escape(v as int)),
    {
        self.container_empty = false;
        assert((v >> 12) & 0x0F == (v / 4096) % 16 && (v >> 12) & 0x0F < 16) by (bit_vector);
        assert((v >> 8) & 0x0F == (v / 256) % 16 && (v >> 8) & 0x0F < 16) by (bit_vector);
        assert((v >> 4) & 0x0F == (v / 16) % 16 && (v >> 4) & 0x0F < 16) by (bit_vector);
        assert(v & 0x0F == v % 16 && v & 0x0F < 16) by (bit_vector);
        self.buf.push('\\');
        self.buf.push('u');
        self.buf.push(hex_digit_char((v >> 12) & 0x0F));
        self.buf.push(hex_digit_char((v >> 8) & 0x0F));
        self.buf.push(hex_digit_char((v >> 4) & 0x0F));
        self.buf.push(hex_digit_char(v & 0x0F));
        assert(self@.text =~= old(self)@.text + unicode_escape(v as int));
    }

    fn push_two(&mut self, a: char, b: char)
        ensures
            final(self)@ == old(self)@.append(seq![a, b]),
    {
        self.container_empty = false;
        self.buf.push(a);
        self.buf.push(b);
        assert(self@.text =~= old(self)@.text + seq![a, b]);
    }

    /// Appends the escaped form of one character.
    fn write_escaped_char(&mut self, c: char)
        ensures
            final(self)@ == old(self)@.append(escape_char(c, old(self)@.ensure_ascii)),
    {
        self.container_empty = false;
        let cp = c as u32;
        if c == '"' {
            self.push_two('\\', '"');
        } else if c == '\\' {
            self.push_two('\\', '\\');
        } else if c == '\n' {
            self.push_two('\\', 'n');
        } else if c == '\r' {
            self.push_two('\\', 'r');
        } else if c == '\t' {
            self.push_two('\\', 't');
        } else if cp == 0x08 {
            self.push_two('\\', 'b');
        } else if cp == 0x0c {
            self.push_two('\\', 'f');
        } else if cp < 0x20 {
            self.push_unicode_escape(cp);
        } else if cp < 0x80 || !self.ensure_ascii {
            self.buf.push(c);
            assert(self@.text =~= old(self)@.text + seq![c]);
        } else if cp < 0x10000 {
            self.push_unicode_escape(cp);
        } else {
            let v = cp - 0x10000;
            self.push_unicode_escape(0xd800 + v / 1024);
            self.push_unicode_escape(0xdc00 + v % 1024);
            assert(self@.text =~= old(self)@.text + escape_char(c, old(self)@.ensure_ascii));
        }
    }

    /// Write a JSON string with proper escaping.
    pub fn write_string(&mut self, s: &str)
        ensures
            final(self)@ == old(self)@.append(quoted(s@, old(self)@.ensure_ascii)),
    {
        self.container_empty = false;
        let ghost start = self@;
        self.buf.push('"');
        assert(s@.take(0) =~= Seq::<char>::empty());
        assert(self@.text =~= start.text + (seq!['"'] + escape_chars(s@.take(0), start.ensure_ascii)));
        for c in it: s.chars()
            invariant
                it.seq() == s@,
                self@ == start.append(seq!['"'] + escape_chars(s@.take(it.index() as int), start.ensure_ascii)),
        {
            let ghost i = it.index();
            self.write_escaped_char(c);
            assert(s@.take(i + 1).drop_last() =~= s@.take(i as int));
            assert(self@.text =~= start.text + (seq!['"'] + escape_chars(s@.take(i + 1), start.ensure_ascii)));
        }
        self.buf.push('"');
        assert(s@.take(s@.len() as int) =~= s@);
        assert(self@.text =~= start.text + quoted(s@, start.ensure_ascii));
    }
}

} // verus!
