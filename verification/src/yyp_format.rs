//! The text format of a project file: the project's lists are written one
//! member per line, indented by two spaces a level, each member followed by a
//! comma (the IDE's own trailing-comma JSON).
use vstd::prelude::*;
use crate::paths::FilesystemPath;
use crate::resource_names::YypResource;

verus! {

/// `n` levels of indentation, two spaces each.
pub open spec fn indentation_spec(n: nat) -> Seq<char>
    decreases n,
{
    if n == 0 {
        Seq::empty()
    } else {
        indentation_spec((n - 1) as nat) + "  "@
    }
}

/// Appends `indentation` levels of indentation.
pub fn print_indentation(string: &mut String, indentation: usize)
    ensures
        final(string)@ == old(string)@ + indentation_spec(indentation as nat),
{
    let mut i: usize = 0;
    proof {
        assert(old(string)@ + indentation_spec(0) =~= old(string)@);
    }
    while i < indentation
        invariant
            i <= indentation,
            string@ == old(string)@ + indentation_spec(i as nat),
        decreases indentation - i,
    {
        string.append("  ");
        proof {
            assert(old(string)@ + indentation_spec(i as nat) + "  "@ =~= old(string)@ + indentation_spec(
                (i + 1) as nat,
            ));
        }
        i = i + 1;
    }
}

/// A labelled line of the project file, followed by one level of indentation
/// for the next: `"label": value,` and the line ending.
pub open spec fn yyp_line_spec(label: Seq<char>, value: Seq<char>, line_ending: Seq<char>) -> Seq<char> {
    "\""@ + label + "\": "@ + value + ","@ + line_ending + indentation_spec(1)
}

/// Appends a labelled line of the project file.
pub fn print_yyp_line(string: &mut String, label: &str, value: String, line_ending: &str)
    ensures
        final(string)@ == old(string)@ + yyp_line_spec(label@, value@, line_ending@),
{
    string.append("\"");
    string.append(label);
    string.append("\": ");
    string.append(value.as_str());
    string.append(",");
    string.append(line_ending);
    print_indentation(string, 1);
    proof {
        assert(string@ =~= old(string)@ + yyp_line_spec(label@, value@, line_ending@));
    }
}

/// The decimal digit `d`.
pub open spec fn digit_char(d: nat) -> char {
    if d == 0 {
        '0'
    } else if d == 1 {
        '1'
    } else if d == 2 {
        '2'
    } else if d == 3 {
        '3'
    } else if d == 4 {
        '4'
    } else if d == 5 {
        '5'
    } else if d == 6 {
        '6'
    } else if d == 7 {
        '7'
    } else if d == 8 {
        '8'
    } else {
        '9'
    }
}

/// The decimal numeral of `n`, without leading zeros.
pub open spec fn decimal_spec(n: nat) -> Seq<char>
    decreases n,
{
    if n < 10 {
        seq![digit_char(n)]
    } else {
        decimal_spec(n / 10).push(digit_char(n % 10))
    }
}

/// The decimal numeral of `n`, with a leading `-` where it is negative.
pub open spec fn signed_decimal_spec(n: int) -> Seq<char> {
    if n < 0 {
        "-"@ + decimal_spec((-n) as nat)
    } else {
        decimal_spec(n as nat)
    }
}

fn digit_str(d: usize) -> (s: &'static str)
    requires
        d < 10,
    ensures
        s@ == seq![digit_char(d as nat)],
{
    proof {
        reveal_strlit("0");
        reveal_strlit("1");
        reveal_strlit("2");
        reveal_strlit("3");
        reveal_strlit("4");
        reveal_strlit("5");
        reveal_strlit("6");
        reveal_strlit("7");
        reveal_strlit("8");
        reveal_strlit("9");
    }
    if d == 0 {
        "0"
    } else if d == 1 {
        "1"
    } else if d == 2 {
        "2"
    } else if d == 3 {
        "3"
    } else if d == 4 {
        "4"
    } else if d == 5 {
        "5"
    } else if d == 6 {
        "6"
    } else if d == 7 {
        "7"
    } else if d == 8 {
        "8"
    } else {
        "9"
    }
}

/// The decimal numeral of `n` (as `usize::to_string`).
pub fn decimal(n: usize) -> (s: String)
    ensures
        s@ == decimal_spec(n as nat),
    decreases n,
{
    if n < 10 {
        digit_str(n).to_string()
    } else {
        let mut s = decimal(n / 10);
        s.append(digit_str(n % 10));
        s
    }
}

/// The decimal numeral of `n` with its sign (as `i32::to_string`).
pub fn signed_decimal(n: i32) -> (s: String)
    ensures
        s@ == signed_decimal_spec(n as int),
{
    if n < 0 {
        let m: i64 = -(n as i64);
        let mut s = "-".to_string();
        let d = decimal(m as usize);
        s.append(d.as_str());
        s
    } else {
        decimal(n as usize)
    }
}

/// The text of a boolean (as `bool::to_string`).
pub fn bool_text(b: bool) -> (s: String)
    ensures
        s@ == (if b {
            "true"@
        } else {
            "false"@
        }),
{
    if b {
        "true".to_string()
    } else {
        "false".to_string()
    }
}

/// A value that the project file writes as text. `yyp_text` is the text
/// at a level of indentation, with the given line ending; `can_write` says
/// at which levels it can be written without an indentation overflowing.
pub trait YypSerialization {
    spec fn yyp_text(&self, indentation: int, line_ending: Seq<char>) -> Seq<char>;

    spec fn can_write(&self, indentation: int) -> bool;

    fn yyp_serialization(&self, indentation: usize, line_ending: &str) -> (r: String)
        requires
            self.can_write(indentation as int),
        ensures
            r@ == self.yyp_text(indentation as int, line_ending@),
    ;
}

impl YypSerialization for String {
    open spec fn yyp_text(&self, indentation: int, line_ending: Seq<char>) -> Seq<char> {
        "\""@ + self@ + "\""@
    }

    open spec fn can_write(&self, indentation: int) -> bool {
        true
    }

    fn yyp_serialization(&self, indentation: usize, line_ending: &str) -> (r: String) {
        let mut r = "\"".to_string();
        r.append(self.as_str());
        r.append("\"");
        proof {
            assert(r@ =~= "\""@ + self@ + "\""@);
        }
        r
    }
}

impl YypSerialization for FilesystemPath {
    open spec fn yyp_text(&self, indentation: int, line_ending: Seq<char>) -> Seq<char> {
        "{\"name\":\""@ + self.name@ + "\",\"path\":\""@ + self.path@ + "\",}"@
    }

    open spec fn can_write(&self, indentation: int) -> bool {
        true
    }

    fn yyp_serialization(&self, indentation: usize, line_ending: &str) -> (r: String) {
        let mut r = "{\"name\":\"".to_string();
        r.append(self.name.as_str());
        r.append("\",\"path\":\"");
        r.append(self.path.as_str());
        r.append("\",}");
        proof {
            assert(r@ =~= self.yyp_text(indentation as int, line_ending@));
        }
        r
    }
}

impl YypSerialization for YypResource {
    open spec fn yyp_text(&self, indentation: int, line_ending: Seq<char>) -> Seq<char> {
        "{\"id\":"@ + self.id.yyp_text(indentation, line_ending) + ",\"order\":"@ + decimal_spec(
            self.order as nat,
        ) + ",}"@
    }

    open spec fn can_write(&self, indentation: int) -> bool {
        true
    }

    fn yyp_serialization(&self, indentation: usize, line_ending: &str) -> (r: String) {
        let mut r = "{\"id\":".to_string();
        let id = self.id.yyp_serialization(indentation, line_ending);
        r.append(id.as_str());
        r.append(",\"order\":");
        let order = decimal(self.order);
        r.append(order.as_str());
        r.append(",}");
        proof {
            assert(r@ =~= self.yyp_text(indentation as int, line_ending@));
        }
        r
    }
}

/// An entry of the project file's room order: the room's path.
pub struct RoomOrderId {
    pub room_id: FilesystemPath,
}

impl YypSerialization for RoomOrderId {
    open spec fn yyp_text(&self, indentation: int, line_ending: Seq<char>) -> Seq<char> {
        "{\"roomId\":"@ + self.room_id.yyp_text(indentation, line_ending) + ",}"@
    }

    open spec fn can_write(&self, indentation: int) -> bool {
        true
    }

    fn yyp_serialization(&self, indentation: usize, line_ending: &str) -> (r: String) {
        let mut r = "{\"roomId\":".to_string();
        let id = self.room_id.yyp_serialization(indentation, line_ending);
        r.append(id.as_str());
        r.append(",}");
        proof {
            assert(r@ =~= self.yyp_text(indentation as int, line_ending@));
        }
        r
    }
}

/// The members of a list, each on its own line at `indentation`, followed by
/// a comma and the line ending.
pub open spec fn list_items<T: YypSerialization>(items: Seq<T>, indentation: int, line_ending: Seq<char>) -> Seq<
    char,
>
    decreases items.len(),
{
    if items.len() == 0 {
        Seq::empty()
    } else {
        list_items(items.drop_last(), indentation, line_ending) + indentation_spec(indentation as nat)
            + items.last().yyp_text(indentation, line_ending) + ","@ + line_ending
    }
}

impl<T: YypSerialization> YypSerialization for Vec<T> {
    open spec fn yyp_text(&self, indentation: int, line_ending: Seq<char>) -> Seq<char> {
        if self@.len() == 0 {
            "[]"@
        } else {
            "["@ + line_ending + list_items(self@, indentation + 1, line_ending) + indentation_spec(
                indentation as nat,
            ) + "]"@
        }
    }

    open spec fn can_write(&self, indentation: int) -> bool {
        &&& 0 <= indentation < usize::MAX
        &&& forall|i: int| 0 <= i < self@.len() ==> #[trigger] self@[i].can_write(indentation + 1)
    }

    fn yyp_serialization(&self, indentation: usize, line_ending: &str) -> (r: String) {
        if self.len() == 0 {
            return "[]".to_string();
        }
        let mut output = "[".to_string();
        output.append(line_ending);
        let inner = indentation + 1;
        let mut i: usize = 0;
        let ghost start = output@;
        proof {
            assert(self@.take(0) =~= Seq::<T>::empty());
            assert(start + list_items(self@.take(0), inner as int, line_ending@) =~= start);
        }
        while i < self.len()
            invariant
                i <= self@.len(),
                inner == indentation + 1,
                forall|j: int| 0 <= j < self@.len() ==> #[trigger] self@[j].can_write(inner as int),
                output@ == start + list_items(self@.take(i as int), inner as int, line_ending@),
            decreases self@.len() - i,
        {
            print_indentation(&mut output, inner);
            let item = self[i].yyp_serialization(inner, line_ending);
            output.append(item.as_str());
            output.append(",");
            output.append(line_ending);
            proof {
                let t = self@.take(i as int + 1);
                assert(t.drop_last() =~= self@.take(i as int));
                assert(t.last() == self@[i as int]);
                assert(output@ =~= start + list_items(t, inner as int, line_ending@));
            }
            i = i + 1;
        }
        print_indentation(&mut output, indentation);
        output.append("]");
        proof {
            assert(self@.take(i as int) =~= self@);
            assert(output@ =~= self.yyp_text(indentation as int, line_ending@));
        }
        output
    }
}


/// `s` with every `}` written as `,}` (as `str::replace('}', ",}")`).
pub open spec fn comma_before_close(s: Seq<char>) -> Seq<char>
    decreases s.len(),
{
    if s.len() == 0 {
        Seq::empty()
    } else {
        (if s[0] == '}' {
            ",}"@
        } else {
            seq![s[0]]
        }) + comma_before_close(s.skip(1))
    }
}

/// `s` with each `{,}`, from left to right, written as `{}` (as
/// `str::replace("{,}", "{}")`).
pub open spec fn collapse_empty_objects(s: Seq<char>) -> Seq<char>
    decreases s.len(),
{
    if s.len() == 0 {
        Seq::empty()
    } else if s.len() >= 3 && s[0] == '{' && s[1] == ',' && s[2] == '}' {
        "{}"@ + collapse_empty_objects(s.skip(3))
    } else {
        seq![s[0]] + collapse_empty_objects(s.skip(1))
    }
}

/// JSON text in the project file's style: a comma before every `}`, except
/// in an empty object.
pub open spec fn trailing_comma_spec(json: Seq<char>) -> Seq<char> {
    collapse_empty_objects(comma_before_close(json))
}

/// `s` with every `}` written as `,}`.
fn add_comma_before_close(s: &str) -> (r: String)
    ensures
        r@ == comma_before_close(s@),
{
    let n = s.unicode_len();
    let mut out = String::new();
    let mut i: usize = 0;
    proof {
        reveal_strlit(",}");
        assert(s@.skip(0) =~= s@);
        assert(Seq::<char>::empty() + comma_before_close(s@) =~= comma_before_close(s@));
    }
    while i < n
        invariant
            n == s@.len(),
            i <= n,
            out@ + comma_before_close(s@.skip(i as int)) == comma_before_close(s@),
        decreases n - i,
    {
        let c = s.get_char(i);
        let ghost rest = s@.skip(i as int);
        proof {
            assert(rest[0] == c);
            assert(rest.skip(1) =~= s@.skip(i + 1));
        }
        if c == '}' {
            out.append(",}");
        } else {
            out.append(s.substring_char(i, i + 1));
            proof {
                assert(s@.subrange(i as int, i + 1) =~= seq![c]);
            }
        }
        proof {
            assert(out@ + comma_before_close(s@.skip(i + 1)) =~= comma_before_close(s@));
        }
        i = i + 1;
    }
    proof {
        assert(s@.skip(n as int) =~= Seq::<char>::empty());
        assert(out@ + Seq::<char>::empty() =~= out@);
    }
    out
}

/// `s` with each `{,}` written as `{}`.
fn collapse_empty(s: &str) -> (r: String)
    ensures
        r@ == collapse_empty_objects(s@),
{
    let n = s.unicode_len();
    let mut out = String::new();
    let mut i: usize = 0;
    proof {
        reveal_strlit("{}");
        assert(s@.skip(0) =~= s@);
        assert(Seq::<char>::empty() + collapse_empty_objects(s@) =~= collapse_empty_objects(s@));
    }
    while i < n
        invariant
            n == s@.len(),
            i <= n,
            out@ + collapse_empty_objects(s@.skip(i as int)) == collapse_empty_objects(s@),
        decreases n - i,
    {
        let ghost rest = s@.skip(i as int);
        if n - i >= 3 && s.get_char(i) == '{' && s.get_char(i + 1) == ',' && s.get_char(i + 2) == '}' {
            out.append("{}");
            proof {
                assert(rest[0] == '{' && rest[1] == ',' && rest[2] == '}');
                assert(rest.skip(3) =~= s@.skip(i + 3));
                assert(out@ + collapse_empty_objects(s@.skip(i + 3)) =~= collapse_empty_objects(s@));
            }
            i = i + 3;
        } else {
            out.append(s.substring_char(i, i + 1));
            proof {
                assert(s@.subrange(i as int, i + 1) =~= seq![rest[0]]);
                assert(rest.skip(1) =~= s@.skip(i + 1));
                assert(out@ + collapse_empty_objects(s@.skip(i + 1)) =~= collapse_empty_objects(s@));
            }
            i = i + 1;
        }
    }
    proof {
        assert(s@.skip(i as int) =~= Seq::<char>::empty());
        assert(out@ + Seq::<char>::empty() =~= out@);
    }
    out
}

/// Puts JSON text in the project file's style: a comma before every `}`,
/// except in an empty object.
pub fn json_trailing_comma(json: &str) -> (r: String)
    ensures
        r@ == trailing_comma_spec(json@),
{
    let with_commas = add_comma_before_close(json);
    collapse_empty(with_commas.as_str())
}

/// A member of the project file that is written as its JSON object (an audio
/// group, an included file or a folder entry), held as the JSON text.
pub struct JsonObject {
    pub json: String,
}

impl YypSerialization for JsonObject {
    open spec fn yyp_text(&self, indentation: int, line_ending: Seq<char>) -> Seq<char> {
        trailing_comma_spec(self.json@)
    }

    open spec fn can_write(&self, indentation: int) -> bool {
        true
    }

    fn yyp_serialization(&self, indentation: usize, line_ending: &str) -> (r: String) {
        json_trailing_comma(self.json.as_str())
    }
}

/// A texture group of the project file, held as its JSON text. Its empty
/// objects are written `{}`.
pub struct TextureGroupJson {
    pub json: String,
}

impl YypSerialization for TextureGroupJson {
    open spec fn yyp_text(&self, indentation: int, line_ending: Seq<char>) -> Seq<char> {
        collapse_empty_objects(trailing_comma_spec(self.json@))
    }

    open spec fn can_write(&self, indentation: int) -> bool {
        true
    }

    fn yyp_serialization(&self, indentation: usize, line_ending: &str) -> (r: String) {
        let t = json_trailing_comma(self.json.as_str());
        collapse_empty(t.as_str())
    }
}

/// The metadata of a project file: the version of the IDE that wrote it.
pub struct YypMetaData {
    pub ide_version: String,
}

impl YypSerialization for YypMetaData {
    open spec fn yyp_text(&self, indentation: int, line_ending: Seq<char>) -> Seq<char> {
        "{"@ + line_ending + "  "@ + "  "@ + "\"IDEVersion\": \""@ + self.ide_version@ + "\","@ + line_ending
            + "  "@ + "}"@
    }

    open spec fn can_write(&self, indentation: int) -> bool {
        true
    }

    fn yyp_serialization(&self, indentation: usize, line_ending: &str) -> (r: String) {
        let mut r = "{".to_string();
        r.append(line_ending);
        r.append("  ");
        r.append("  ");
        r.append("\"IDEVersion\": \"");
        r.append(self.ide_version.as_str());
        r.append("\",");
        r.append(line_ending);
        r.append("  ");
        r.append("}");
        proof {
            assert(r@ =~= self.yyp_text(indentation as int, line_ending@));
        }
        r
    }
}


/// A build configuration of a project, with the configurations derived from
/// it. The outermost one is always `Default`.
pub struct YypConfig {
    pub name: String,
    pub children: Vec<YypConfig>,
}

/// The text of a derived configuration `c` at indentation `ind`.
pub open spec fn config_child_text(c: YypConfig, ind: int, line_ending: Seq<char>) -> Seq<char>
    decreases c, c.children@.len() + 1,
{
    let n = c.children@.len();
    indentation_spec(ind as nat) + "{\"children\":["@ + if n == 0 {
        "],\"name\":\""@ + c.name@ + "\",},"@ + line_ending
    } else {
        line_ending + children_text(c, n as int, ind + 2, line_ending) + indentation_spec((ind + 1) as nat)
            + "],"@ + line_ending + indentation_spec((ind + 1) as nat) + "\"name\": \""@ + c.name@ + "\","@
            + line_ending
    }
}

/// The texts of the first `k` configurations derived from `c`, at indentation `ind`.
pub open spec fn children_text(c: YypConfig, k: int, ind: int, line_ending: Seq<char>) -> Seq<char>
    decreases c, k,
{
    if k <= 0 || k > c.children@.len() {
        Seq::empty()
    } else {
        proof {
            assert(decreases_to!(c => c.children@[k - 1]));
        }
        children_text(c, k - 1, ind, line_ending) + config_child_text(c.children@[k - 1], ind, line_ending)
    }
}

/// Whether the configuration `c` and those derived from it can be written at
/// indentation `ind` without the indentation overflowing.
pub open spec fn config_fits(c: YypConfig, ind: int) -> bool
    decreases c, c.children@.len() + 1,
{
    &&& 0 <= ind
    &&& ind + 2 <= usize::MAX
    &&& children_fit(c, c.children@.len() as int, ind + 2)
}

/// Whether the first `k` configurations derived from `c` fit at indentation `ind`.
pub open spec fn children_fit(c: YypConfig, k: int, ind: int) -> bool
    decreases c, k,
{
    if k <= 0 || k > c.children@.len() {
        true
    } else {
        proof {
            assert(decreases_to!(c => c.children@[k - 1]));
        }
        children_fit(c, k - 1, ind) && config_fits(c.children@[k - 1], ind)
    }
}

proof fn lemma_children_fit(c: YypConfig, k: int, ind: int, i: int)
    requires
        children_fit(c, k, ind),
        0 <= i < k <= c.children@.len(),
    ensures
        config_fits(c.children@[i], ind),
    decreases k,
{
    if i < k - 1 {
        lemma_children_fit(c, k - 1, ind, i);
    }
}

proof fn lemma_config_fits_child(c: YypConfig, ind: int, i: int)
    requires
        config_fits(c, ind),
        0 <= i < c.children@.len(),
    ensures
        config_fits(c.children@[i], ind + 2),
{
    lemma_children_fit(c, c.children@.len() as int, ind + 2, i);
}

/// Appends the text of the derived configuration `config`, leaving the
/// indentation as it was.
fn inner_config_print(string: &mut String, config: &YypConfig, indentation: &mut usize, line_ending: &str)
    requires
        config_fits(*config, *old(indentation) as int),
    ensures
        *final(indentation) == *old(indentation),
        final(string)@ == old(string)@ + config_child_text(*config, *old(indentation) as int, line_ending@),
    decreases config,
{
    let ghost ind = *indentation as int;
    print_indentation(string, *indentation);
    string.append("{\"children\":[");
    let n = config.children.len();
    if n != 0 {
        string.append(line_ending);
        *indentation = *indentation + 2;
        let ghost start = string@;
        let mut i: usize = 0;
        proof {
            assert(start + children_text(*config, 0, ind + 2, line_ending@) =~= start);
        }
        while i < n
            invariant
                n == config.children@.len(),
                i <= n,
                *indentation == ind + 2,
                config_fits(*config, ind),
                string@ == start + children_text(*config, i as int, ind + 2, line_ending@),
            decreases n - i,
        {
            proof {
                lemma_config_fits_child(*config, ind, i as int);
                assert(decreases_to!(*config => config.children@[i as int]));
            }
            inner_config_print(string, &config.children[i], indentation, line_ending);
            proof {
                assert(string@ =~= start + children_text(*config, i + 1, ind + 2, line_ending@));
            }
            i = i + 1;
        }
        *indentation = *indentation - 1;
        print_indentation(string, *indentation);
        string.append("],");
        string.append(line_ending);
        print_indentation(string, *indentation);
        string.append("\"name\": \"");
        string.append(config.name.as_str());
        string.append("\",");
        string.append(line_ending);
        *indentation = *indentation - 1;
    } else {
        string.append("],\"name\":\"");
        string.append(config.name.as_str());
        string.append("\",},");
        string.append(line_ending);
    }
    proof {
        assert(string@ =~= old(string)@ + config_child_text(*config, ind, line_ending@));
    }
}

impl YypSerialization for YypConfig {
    open spec fn yyp_text(&self, indentation: int, line_ending: Seq<char>) -> Seq<char> {
        let n = self.children@.len();
        "{"@ + line_ending + indentation_spec((indentation + 1) as nat) + "\"children\": ["@ + (if n == 0 {
            Seq::empty()
        } else {
            line_ending + children_text(*self, n as int, indentation + 2, line_ending) + indentation_spec(
                (indentation + 1) as nat,
            )
        }) + indentation_spec((indentation + 1) as nat) + "\"name\": \""@ + self.name@ + "\","@ + line_ending
            + "],"@ + line_ending + indentation_spec(indentation as nat) + "}"@
    }

    /// Only a top-level configuration is written, at indentation 1.
    open spec fn can_write(&self, indentation: int) -> bool {
        &&& indentation == 1
        &&& forall|i: int| 0 <= i < self.children@.len() ==> #[trigger] config_fits(self.children@[i], 3)
    }

    fn yyp_serialization(&self, indentation: usize, line_ending: &str) -> (r: String) {
        let ghost top = indentation as int;
        let mut indentation = indentation;
        let mut output = "{".to_string();
        output.append(line_ending);
        indentation = indentation + 1;
        print_indentation(&mut output, indentation);
        output.append("\"children\": [");
        let n = self.children.len();
        if n != 0 {
            output.append(line_ending);
            indentation = indentation + 1;
            let ghost start = output@;
            let mut i: usize = 0;
            proof {
                assert(start + children_text(*self, 0, 3, line_ending@) =~= start);
            }
            while i < n
                invariant
                    n == self.children@.len(),
                    i <= n,
                    indentation == 3,
                    forall|j: int| 0 <= j < self.children@.len() ==> #[trigger] config_fits(self.children@[j], 3),
                    output@ == start + children_text(*self, i as int, 3, line_ending@),
                decreases n - i,
            {
                proof {
                    assert(config_fits(self.children@[i as int], 3));
                }
                inner_config_print(&mut output, &self.children[i], &mut indentation, line_ending);
                proof {
                    assert(output@ =~= start + children_text(*self, i + 1, 3, line_ending@));
                }
                i = i + 1;
            }
            indentation = indentation - 1;
            print_indentation(&mut output, indentation);
        }
        print_indentation(&mut output, indentation);
        output.append("\"name\": \"");
        output.append(self.name.as_str());
        output.append("\",");
        output.append(line_ending);
        output.append("],");
        output.append(line_ending);
        indentation = indentation - 1;
        print_indentation(&mut output, indentation);
        output.append("}");
        proof {
            assert(output@ =~= self.yyp_text(top, line_ending@));
        }
        output
    }
}

/// A project file, as its text format needs it. The members that the format
/// writes as their JSON objects are held as JSON text, and so is the file's
/// resource version.
pub struct YypDocument {
    pub resource_version: String,
    pub name: String,
    pub audio_groups: Vec<JsonObject>,
    pub configs: YypConfig,
    pub default_script_type: i32,
    pub folders: Vec<JsonObject>,
    pub included_files: Vec<JsonObject>,
    pub is_ecma: bool,
    pub meta_data: YypMetaData,
    pub resources: Vec<YypResource>,
    pub room_order_nodes: Vec<RoomOrderId>,
    pub texture_groups: Vec<TextureGroupJson>,
}

/// The lines of a project file between its braces, before the last line's
/// ending and indentation are taken off.
pub open spec fn yyp_body(d: YypDocument, le: Seq<char>) -> Seq<char> {
    indentation_spec(1) + yyp_line_spec("resourceType"@, "\"GMProject\""@, le) + yyp_line_spec(
        "resourceVersion"@,
        d.resource_version@,
        le,
    ) + yyp_line_spec("name"@, d.name.yyp_text(1, le), le) + yyp_line_spec(
        "AudioGroups"@,
        d.audio_groups.yyp_text(1, le),
        le,
    ) + yyp_line_spec("configs"@, d.configs.yyp_text(1, le), le) + yyp_line_spec(
        "defaultScriptType"@,
        signed_decimal_spec(d.default_script_type as int),
        le,
    ) + yyp_line_spec("Folders"@, d.folders.yyp_text(1, le), le) + yyp_line_spec(
        "IncludedFiles"@,
        d.included_files.yyp_text(1, le),
        le,
    ) + yyp_line_spec(
        "isEcma"@,
        if d.is_ecma {
            "true"@
        } else {
            "false"@
        },
        le,
    ) + yyp_line_spec("LibraryEmitters"@, "[]"@, le) + yyp_line_spec("MetaData"@, d.meta_data.yyp_text(1, le), le)
        + yyp_line_spec("resources"@, d.resources.yyp_text(1, le), le) + yyp_line_spec(
        "RoomOrderNodes"@,
        d.room_order_nodes.yyp_text(1, le),
        le,
    ) + yyp_line_spec("TextureGroups"@, d.texture_groups.yyp_text(1, le), le)
}

/// The text of a project file: its lines between braces, each brace on a line
/// of its own; the last line keeps its comma but loses its indentation and the
/// last character of its line ending.
pub open spec fn serialize_yyp_spec(d: YypDocument, le: Seq<char>) -> Seq<char> {
    let body = yyp_body(d, le);
    "{"@ + le + body.take(body.len() - 3) + le + "}"@
}

/// Writes a project file in its text format, with the given line ending.
pub fn serialize_yyp(yyp: &YypDocument, line_ending: &str) -> (r: String)
    requires
        yyp.configs.can_write(1),
    ensures
        r@ == serialize_yyp_spec(*yyp, line_ending@),
{
    let le = line_ending;
    let mut output = String::new();
    print_indentation(&mut output, 1);
    print_yyp_line(&mut output, "resourceType", "\"GMProject\"".to_string(), le);
    print_yyp_line(&mut output, "resourceVersion", yyp.resource_version.clone(), le);
    print_yyp_line(&mut output, "name", yyp.name.yyp_serialization(1, le), le);
    print_yyp_line(&mut output, "AudioGroups", yyp.audio_groups.yyp_serialization(1, le), le);
    print_yyp_line(&mut output, "configs", yyp.configs.yyp_serialization(1, le), le);
    print_yyp_line(&mut output, "defaultScriptType", signed_decimal(yyp.default_script_type), le);
    print_yyp_line(&mut output, "Folders", yyp.folders.yyp_serialization(1, le), le);
    print_yyp_line(&mut output, "IncludedFiles", yyp.included_files.yyp_serialization(1, le), le);
    print_yyp_line(&mut output, "isEcma", bool_text(yyp.is_ecma), le);
    print_yyp_line(&mut output, "LibraryEmitters", "[]".to_string(), le);
    print_yyp_line(&mut output, "MetaData", yyp.meta_data.yyp_serialization(1, le), le);
    print_yyp_line(&mut output, "resources", yyp.resources.yyp_serialization(1, le), le);
    print_yyp_line(&mut output, "RoomOrderNodes", yyp.room_order_nodes.yyp_serialization(1, le), le);
    print_yyp_line(&mut output, "TextureGroups", yyp.texture_groups.yyp_serialization(1, le), le);
    let ghost body = yyp_body(*yyp, le@);
    proof {
        assert(output@ =~= body);
        reveal_strlit("  ");
        reveal_strlit(",");
        assert(indentation_spec(0) =~= Seq::<char>::empty());
        assert(indentation_spec(1) =~= "  "@);
        assert(body.len() >= 3);
    }
    let n = output.unicode_len();
    let kept = output.as_str().substring_char(0, n - 3);
    let mut r = "{".to_string();
    r.append(le);
    r.append(kept);
    r.append(le);
    r.append("}");
    proof {
        assert(r@ =~= serialize_yyp_spec(*yyp, le@));
    }
    r
}
/// The total length of the texts of the first `k` configurations derived
/// from `c`, at indentation `ind`.
pub open spec fn child_texts_len(c: YypConfig, k: int, ind: int, line_ending: Seq<char>) -> nat
    decreases k,
{
    if k <= 0 || k > c.children@.len() {
        0
    } else {
        child_texts_len(c, k - 1, ind, line_ending) + config_child_text(c.children@[k - 1], ind, line_ending).len()
    }
}

/// The first `k` derived configurations are all written, each in full and in
/// its place: the text is as long as their texts together, and the `j`-th
/// of them is written right after the ones before it.
proof fn lemma_children_text_holds_each_child(c: YypConfig, k: int, ind: int, line_ending: Seq<char>)
    requires
        0 <= k <= c.children@.len(),
    ensures
        children_text(c, k, ind, line_ending).len() == child_texts_len(c, k, ind, line_ending),
        forall|j: int|
            0 <= j < k ==> children_text(c, k, ind, line_ending).subrange(
                child_texts_len(c, j, ind, line_ending) as int,
                child_texts_len(c, j + 1, ind, line_ending) as int,
            ) == config_child_text(#[trigger] c.children@[j], ind, line_ending),
    decreases k,
{
    if k > 0 {
        lemma_children_text_holds_each_child(c, k - 1, ind, line_ending);
        let prev = children_text(c, k - 1, ind, line_ending);
        let last = config_child_text(c.children@[k - 1], ind, line_ending);
        let t = children_text(c, k, ind, line_ending);
        assert(t == prev + last);
        assert forall|j: int| 0 <= j < k implies t.subrange(
            child_texts_len(c, j, ind, line_ending) as int,
            child_texts_len(c, j + 1, ind, line_ending) as int,
        ) == config_child_text(#[trigger] c.children@[j], ind, line_ending) by {
            if j < k - 1 {
                lemma_child_texts_len_grows(c, j + 1, k - 1, ind, line_ending);
                assert(t.subrange(
                    child_texts_len(c, j, ind, line_ending) as int,
                    child_texts_len(c, j + 1, ind, line_ending) as int,
                ) =~= prev.subrange(
                    child_texts_len(c, j, ind, line_ending) as int,
                    child_texts_len(c, j + 1, ind, line_ending) as int,
                ));
            } else {
                assert(t.subrange(prev.len() as int, t.len() as int) =~= last);
            }
        }
    }
}

/// The lengths of the first texts only grow.
proof fn lemma_child_texts_len_grows(c: YypConfig, j: int, k: int, ind: int, line_ending: Seq<char>)
    requires
        0 <= j <= k <= c.children@.len(),
    ensures
        child_texts_len(c, j, ind, line_ending) <= child_texts_len(c, k, ind, line_ending),
    decreases k - j,
{
    if j < k {
        lemma_child_texts_len_grows(c, j, k - 1, ind, line_ending);
    }
}

/// A configuration's derived configurations are all written, each in full,
/// in their order: the text of the list is exactly as long as their texts
/// together, and each one's text stands right after the texts of those
/// before it. (A list that left one out, or wrote one twice, would differ.)
pub proof fn law_every_derived_config_is_written(c: YypConfig, ind: int, line_ending: Seq<char>)
    ensures
        children_text(c, c.children@.len() as int, ind, line_ending).len() == child_texts_len(
            c,
            c.children@.len() as int,
            ind,
            line_ending,
        ),
        forall|j: int|
            0 <= j < c.children@.len() ==> children_text(c, c.children@.len() as int, ind, line_ending).subrange(
                child_texts_len(c, j, ind, line_ending) as int,
                child_texts_len(c, j + 1, ind, line_ending) as int,
            ) == config_child_text(#[trigger] c.children@[j], ind, line_ending),
{
    lemma_children_text_holds_each_child(c, c.children@.len() as int, ind, line_ending);
}

} // verus!
