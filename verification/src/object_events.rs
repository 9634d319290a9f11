//! The code of an object's events.
//!
//! An event is named here as the name of its code file without the `.gml`
//! extension, such as `Create_0` or `Alarm_3`: the event's kind followed by
//! its number. An object's code holds one text per event of its event list.
use vstd::prelude::*;
use crate::string_map::{str_eq, StringMap};

verus! {

/// Whether `c` is an ASCII decimal digit.
pub open spec fn is_digit(c: char) -> bool {
    ('0' as int) <= (c as int) <= ('9' as int)
}

/// The value of a string of decimal digits.
pub open spec fn digits_value(s: Seq<char>) -> int
    decreases s.len(),
{
    if s.len() == 0 {
        0
    } else {
        digits_value(s.drop_last()) * 10 + ((s.last() as int) - ('0' as int))
    }
}

/// The number that a text denotes as a `usize`: an optional `+` followed by
/// at least one decimal digit and nothing else, with a value that fits.
pub open spec fn usize_text(s: Seq<char>) -> Option<usize> {
    let d = if s.len() > 0 && s[0] == '+' {
        s.skip(1)
    } else {
        s
    };
    if d.len() > 0 && (forall|i: int| 0 <= i < d.len() ==> is_digit(#[trigger] d[i]))
        && digits_value(d) <= usize::MAX {
        Some(digits_value(d) as usize)
    } else {
        None
    }
}

/// std's `str::parse::<usize>`. Its documentation: the text must be an
/// optional `+` followed by decimal digits only, and a value above
/// `usize::MAX` is an error.
#[verifier::external_body]
fn parse_usize(s: &str) -> (r: Option<usize>)
    ensures
        r == usize_text(s@),
{
    s.parse::<usize>().ok()
}

/// The name of the event of kind `kind` and number `number`, as GameMaker
/// writes it (`Create_0`), or `None` where no such event exists.
pub uninterp spec fn gms_event_file_name(kind: Seq<char>, number: usize) -> Option<Seq<char>>;

/// yy-typings' `EventType::parse_filename(kind, number)`, followed by
/// `EventType::filename_simple` on the event found. Nothing is claimed but
/// that the result is a function of the two arguments.
#[verifier::external_body]
fn event_file_name(kind: &str, number: usize) -> (r: Option<String>)
    ensures
        match gms_event_file_name(kind@, number) {
            Some(name) => r matches Some(s) && s@ == name,
            None => r is None,
        },
{
    match yy_typings::object_yy::EventType::parse_filename(kind, number) {
        Ok(event) => Some(event.filename_simple()),
        Err(_) => None,
    }
}

/// The index of the one `_` of a key, where it has exactly one.
pub open spec fn single_underscore(key: Seq<char>) -> Option<int> {
    if exists|i: int|
        0 <= i < key.len() && key[i] == '_' && (forall|j: int|
            0 <= j < key.len() && key[j] == '_' ==> j == i) {
        Some(
            choose|i: int|
                0 <= i < key.len() && key[i] == '_' && (forall|j: int|
                    0 <= j < key.len() && key[j] == '_' ==> j == i),
        )
    } else {
        None
    }
}

/// The number in a key: the text after the `_`, read as a `usize`, and 0
/// where it is not one.
pub open spec fn key_number(text: Seq<char>) -> usize {
    match usize_text(text) {
        Some(n) => n,
        None => 0,
    }
}

/// The event that a key of the form `Kind_number` names: `None` where the
/// key does not have exactly one `_` or names no event.
pub open spec fn key_event(key: Seq<char>) -> Option<Seq<char>> {
    match single_underscore(key) {
        Some(i) => gms_event_file_name(key.take(i), key_number(key.skip(i + 1))),
        None => None,
    }
}

/// The event that a key of the form `Kind_number` names, as a file name
/// (`Create_0`). A key without exactly one `_`, or that names no event,
/// gives `None`. A number that cannot be read counts as 0.
pub fn event_of_key(key: &str) -> (r: Option<String>)
    ensures
        match key_event(key@) {
            Some(name) => r matches Some(s) && s@ == name,
            None => r is None,
        },
{
    let n = key.unicode_len();
    let mut first: Option<usize> = None;
    let mut i: usize = 0;
    while i < n
        invariant
            n == key@.len(),
            i <= n,
            match first {
                Some(f) => f < i && key@[f as int] == '_' && forall|j: int|
                    0 <= j < i && key@[j] == '_' ==> j == f,
                None => forall|j: int| 0 <= j < i ==> key@[j] != '_',
            },
        decreases n - i,
    {
        if key.get_char(i) == '_' {
            match first {
                Some(f) => {
                    proof {
                        assert(key@[f as int] == '_' && key@[i as int] == '_' && f != i);
                        assert(single_underscore(key@) is None);
                    }
                    return None;
                },
                None => {
                    first = Some(i);
                },
            }
        }
        i = i + 1;
    }
    match first {
        None => {
            proof {
                assert(single_underscore(key@) is None);
            }
            None
        },
        Some(f) => {
            proof {
                assert(single_underscore(key@) == Some(f as int));
            }
            let kind = key.substring_char(0, f);
            let text = key.substring_char(f + 1, n);
            proof {
                assert(kind@ =~= key@.take(f as int));
                assert(text@ =~= key@.skip(f + 1));
            }
            let number: usize = match parse_usize(text) {
                Some(v) => v,
                None => 0,
            };
            event_file_name(kind, number)
        },
    }
}

/// Whether every key of the entries names an event.
pub open spec fn keys_name_events(entries: Seq<(Seq<char>, Seq<char>)>) -> bool {
    forall|i: int| 0 <= i < entries.len() ==> #[trigger] key_event(entries[i].0) is Some
}

/// The entries with each key replaced by the event that it names.
pub open spec fn canonical_entries(entries: Seq<(Seq<char>, Seq<char>)>) -> Seq<(Seq<char>, Seq<char>)> {
    entries.map_values(
        |p: (Seq<char>, Seq<char>)|
            (
                match key_event(p.0) {
                    Some(name) => name,
                    None => Seq::empty(),
                },
                p.1,
            ),
    )
}

/// Reads the keys of a JSON map from keys (`Create_0`) to code as the events
/// they name, in order. `None` where some key names no event.
pub fn event_entries(entries: &Vec<(String, String)>) -> (r: Option<Vec<(String, String)>>)
    ensures
        r is Some <==> keys_name_events(pairs_view(entries@)),
        r matches Some(v) ==> pairs_view(v@) == canonical_entries(pairs_view(entries@)),
{
    let ghost keyed = pairs_view(entries@);
    let mut out: Vec<(String, String)> = Vec::new();
    let mut i: usize = 0;
    while i < entries.len()
        invariant
            i <= entries.len(),
            keyed == pairs_view(entries@),
            out.len() == i,
            forall|k: int|
                0 <= k < i ==> key_event(#[trigger] keyed[k].0) == Some(out[k].0@) && out[k].1@
                    == keyed[k].1,
        decreases entries.len() - i,
    {
        proof {
            assert(keyed[i as int] == (entries[i as int].0@, entries[i as int].1@));
        }
        match event_of_key(entries[i].0.as_str()) {
            Some(name) => {
                out.push((name, entries[i].1.clone()));
            },
            None => {
                proof {
                    assert(key_event(keyed[i as int].0) is None);
                }
                return None;
            },
        }
        i = i + 1;
    }
    proof {
        assert(pairs_view(out@) =~= canonical_entries(keyed));
    }
    Some(out)
}

/// Entries of event names and code, as plain text.
pub open spec fn pairs_view(v: Seq<(String, String)>) -> Seq<(Seq<char>, Seq<char>)> {
    v.map_values(|p: (String, String)| (p.0@, p.1@))
}

/// The code that the entries give an event: that of the last entry for it.
pub open spec fn code_for(entries: Seq<(Seq<char>, Seq<char>)>, event: Seq<char>) -> Option<
    Seq<char>,
>
    decreases entries.len(),
{
    if entries.len() == 0 {
        None
    } else if entries.last().0 == event {
        Some(entries.last().1)
    } else {
        code_for(entries.drop_last(), event)
    }
}

/// The code that the entries give an event.
fn last_code(entries: &Vec<(String, String)>, event: &str) -> (r: Option<String>)
    ensures
        match code_for(pairs_view(entries@), event@) {
            Some(c) => r matches Some(s) && s@ == c,
            None => r is None,
        },
{
    let mut i: usize = entries.len();
    proof {
        assert(pairs_view(entries@).take(i as int) =~= pairs_view(entries@));
    }
    while i > 0
        invariant
            i <= entries.len(),
            code_for(pairs_view(entries@), event@) == code_for(pairs_view(entries@).take(i as int), event@),
        decreases i,
    {
        let ghost prefix = pairs_view(entries@).take(i as int);
        proof {
            assert(prefix.drop_last() =~= pairs_view(entries@).take(i - 1));
        }
        if str_eq(entries[i - 1].0.as_str(), event) {
            return Some(entries[i - 1].1.clone());
        }
        i = i - 1;
    }
    proof {
        assert(pairs_view(entries@).take(0) =~= Seq::<(Seq<char>, Seq<char>)>::empty());
    }
    None
}

/// Why the code of an object could not be had.
#[derive(Debug, Clone, PartialEq, Eq)]
pub enum ObjectCodeError {
    /// No code was given for this event of the object's event list.
    MissingEvent(String),
    /// The text is not a JSON map from strings to strings: the parser's message.
    BadJson(String),
}

/// The names of a list of events, as plain text.
pub open spec fn names_view(v: Seq<String>) -> Seq<Seq<char>> {
    v.map_values(|s: String| s@)
}

/// Whether `r` is the code of an object with the events `events` made from
/// entries of event names and code: for each event of the list, the code of
/// the last entry for it, entries for other events left out; and where an
/// event has no entry, the first such event of the list reported.
pub open spec fn object_code_result(
    events: Seq<Seq<char>>,
    entries: Seq<(Seq<char>, Seq<char>)>,
    r: Result<StringMap<String>, ObjectCodeError>,
) -> bool {
    match r {
        Ok(m) => (forall|i: int| 0 <= i < events.len() ==> #[trigger] code_for(entries, events[i]) is Some)
            && (forall|k: Seq<char>| #[trigger]
            m@.contains_key(k) <==> exists|j: int| 0 <= j < events.len() && events[j] == k)
            && forall|k: Seq<char>| #[trigger] m@.contains_key(k) ==> Some(m@[k]@) == code_for(entries, k),
        Err(ObjectCodeError::MissingEvent(name)) => exists|i: int|
            0 <= i < events.len() && name@ == events[i] && code_for(entries, #[trigger] events[i]) is None
                && forall|j: int| 0 <= j < i ==> #[trigger] code_for(entries, events[j]) is Some,
        Err(ObjectCodeError::BadJson(_)) => false,
    }
}

/// The code of an object from entries of event names and code: for each
/// event of the object's list, the code of the last entry for it; entries
/// for other events are left out. Where an event has no entry, the first
/// such event of the list is reported.
pub fn select_object_code(events: &Vec<String>, entries: &Vec<(String, String)>) -> (r: Result<
    StringMap<String>,
    ObjectCodeError,
>)
    ensures
        object_code_result(names_view(events@), pairs_view(entries@), r),
{
    let ghost names = names_view(events@);
    let mut m: StringMap<String> = StringMap::new();
    let mut i: usize = 0;
    while i < events.len()
        invariant
            i <= events.len(),
            names == names_view(events@),
            forall|j: int| 0 <= j < i ==> #[trigger] code_for(pairs_view(entries@), names[j]) is Some,
            forall|k: Seq<char>| #[trigger]
                m@.contains_key(k) <==> exists|j: int| 0 <= j < i && names[j] == k,
            forall|k: Seq<char>| #[trigger]
                m@.contains_key(k) ==> Some(m@[k]@) == code_for(pairs_view(entries@), k),
        decreases events.len() - i,
    {
        proof {
            assert(names[i as int] == events[i as int]@);
        }
        match last_code(entries, events[i].as_str()) {
            Some(code) => {
                m.insert(events[i].clone(), code);
            },
            None => {
                return Err(ObjectCodeError::MissingEvent(events[i].clone()));
            },
        }
        i = i + 1;
    }
    Ok(m)
}

/// The code of an object when none is given: an empty text for each event
/// of its list.
pub fn default_object_code(events: &Vec<String>) -> (m: StringMap<String>)
    ensures
        forall|k: Seq<char>| #[trigger]
            m@.contains_key(k) <==> exists|j: int| 0 <= j < events.len() && events[j]@ == k,
        forall|k: Seq<char>| #[trigger] m@.contains_key(k) ==> m@[k]@ == Seq::<char>::empty(),
{
    let mut m: StringMap<String> = StringMap::new();
    let mut i: usize = 0;
    while i < events.len()
        invariant
            i <= events.len(),
            forall|k: Seq<char>| #[trigger]
                m@.contains_key(k) <==> exists|j: int| 0 <= j < i && events[j]@ == k,
            forall|k: Seq<char>| #[trigger] m@.contains_key(k) ==> m@[k]@ == Seq::<char>::empty(),
        decreases events.len() - i,
    {
        m.insert(events[i].clone(), String::new());
        i = i + 1;
    }
    m
}

/// The first position of an event in a list.
fn event_position(events: &Vec<String>, event: &str) -> (r: Option<usize>)
    ensures
        match r {
            Some(i) => i < events.len() && events[i as int]@ == event@ && forall|j: int|
                0 <= j < i ==> events[j]@ != event@,
            None => forall|j: int| 0 <= j < events.len() ==> events[j]@ != event@,
        },
{
    let mut i: usize = 0;
    while i < events.len()
        invariant
            i <= events.len(),
            forall|j: int| 0 <= j < i ==> events[j]@ != event@,
        decreases events.len() - i,
    {
        if str_eq(events[i].as_str(), event) {
            return Some(i);
        }
        i = i + 1;
    }
    None
}

/// Whether an event is in a list.
pub open spec fn has_event(events: Seq<String>, event: Seq<char>) -> bool {
    exists|j: int| 0 <= j < events.len() && events[j]@ == event
}

/// Adds an event to an object: where the object lacks it, the event joins
/// the end of its list with empty code, and `true` is returned; else nothing
/// changes and `false` is returned.
pub fn add_event(events: &mut Vec<String>, code: &mut StringMap<String>, event: String) -> (r: bool)
    ensures
        r == !has_event(old(events)@, event@),
        r ==> final(events)@ == old(events)@.push(event) && final(code)@ == old(code)@.insert(
            event@,
            final(code)@[event@],
        ) && final(code)@[event@]@ == Seq::<char>::empty(),
        !r ==> final(events)@ == old(events)@ && final(code)@ == old(code)@,
{
    match event_position(events, event.as_str()) {
        Some(_) => false,
        None => {
            code.insert(event.clone(), String::new());
            events.push(event);
            true
        },
    }
}

/// Removes an event from an object: where the object has it, its first
/// occurrence leaves the list, its code leaves the object, and `true` is
/// returned; else nothing changes and `false` is returned.
pub fn remove_event(events: &mut Vec<String>, code: &mut StringMap<String>, event: &str) -> (r: bool)
    ensures
        r == has_event(old(events)@, event@),
        r ==> exists|i: int|
            0 <= i < old(events).len() && old(events)[i]@ == event@ && (forall|j: int|
                0 <= j < i ==> old(events)[j]@ != event@) && final(events)@ == old(events)@.remove(i),
        r ==> final(code)@ == old(code)@.remove(event@),
        !r ==> final(events)@ == old(events)@ && final(code)@ == old(code)@,
{
    match event_position(events, event) {
        Some(i) => {
            events.remove(i);
            code.remove(event);
            true
        },
        None => false,
    }
}

/// The code files of an object's events, relative to the object's folder
/// (`Create_0.gml`): those that replacing the object must delete.
pub fn event_code_files(events: &Vec<String>) -> (r: Vec<String>)
    ensures
        r.len() == events.len(),
        forall|i: int| 0 <= i < events.len() ==> #[trigger] r[i]@ == events[i]@ + ".gml"@,
{
    let mut out: Vec<String> = Vec::new();
    let mut i: usize = 0;
    while i < events.len()
        invariant
            i <= events.len(),
            out.len() == i,
            forall|k: int| 0 <= k < i ==> #[trigger] out[k]@ == events[k]@ + ".gml"@,
        decreases events.len() - i,
    {
        let mut file = events[i].clone();
        file.append(".gml");
        out.push(file);
        i = i + 1;
    }
    out
}

/// The code files that writing an object's code writes, in the order of its
/// event list: for each event that has code, `Event.gml` with that code.
pub open spec fn written_files(events: Seq<Seq<char>>, code: Map<Seq<char>, String>) -> Seq<
    (Seq<char>, Seq<char>),
>
    decreases events.len(),
{
    if events.len() == 0 {
        Seq::empty()
    } else {
        let rest = written_files(events.drop_last(), code);
        if code.contains_key(events.last()) {
            rest.push((events.last() + ".gml"@, code[events.last()]@))
        } else {
            rest
        }
    }
}

/// The code files to write for an object, with their code: one per event of
/// its list that has code. (A file that exists already is left as it is.)
pub fn files_to_write(events: &Vec<String>, code: &StringMap<String>) -> (r: Vec<(String, String)>)
    ensures
        pairs_view(r@) == written_files(names_view(events@), code@),
{
    let mut out: Vec<(String, String)> = Vec::new();
    let mut i: usize = 0;
    while i < events.len()
        invariant
            i <= events.len(),
            pairs_view(out@) == written_files(names_view(events@).take(i as int), code@),
        decreases events.len() - i,
    {
        proof {
            assert(names_view(events@).take(i + 1).drop_last() =~= names_view(events@).take(i as int));
        }
        let ghost before = out@;
        match code.get(events[i].as_str()) {
            Some(text) => {
                let mut file = events[i].clone();
                file.append(".gml");
                out.push((file, text.clone()));
                proof {
                    assert(pairs_view(out@) =~= pairs_view(before).push((events[i as int]@ + ".gml"@, code@[events[i as int]@]@)));
                }
            },
            None => {},
        }
        i = i + 1;
    }
    proof {
        assert(names_view(events@).take(events.len() as int) =~= names_view(events@));
    }
    out
}

/// Whether a file of an object's folder belongs there: the object's own
/// `.yy` file, or the code file of one of its events that has code.
pub open spec fn belongs_in_object_folder(
    object_name: Seq<char>,
    events: Seq<Seq<char>>,
    code: Map<Seq<char>, String>,
    file: Seq<char>,
) -> bool {
    ||| file == object_name + ".yy"@
    ||| exists|j: int|
        0 <= j < events.len() && code.contains_key(events[j]) && file == events[j] + ".gml"@
}

/// The files of a folder listing that do not belong there, in the order of
/// the listing.
pub open spec fn stray_files(
    object_name: Seq<char>,
    events: Seq<Seq<char>>,
    code: Map<Seq<char>, String>,
    listing: Seq<Seq<char>>,
) -> Seq<Seq<char>>
    decreases listing.len(),
{
    if listing.len() == 0 {
        Seq::empty()
    } else {
        let rest = stray_files(object_name, events, code, listing.drop_last());
        if belongs_in_object_folder(object_name, events, code, listing.last()) {
            rest
        } else {
            rest.push(listing.last())
        }
    }
}

/// Whether a file belongs in an object's folder.
fn belongs(object_name: &str, events: &Vec<String>, code: &StringMap<String>, file: &str) -> (r: bool)
    ensures
        r == belongs_in_object_folder(object_name@, names_view(events@), code@, file@),
{
    let mut yy = object_name.to_string();
    yy.append(".yy");
    if str_eq(yy.as_str(), file) {
        return true;
    }
    let mut i: usize = 0;
    while i < events.len()
        invariant
            i <= events.len(),
            file@ != object_name@ + ".yy"@,
            forall|j: int|
                0 <= j < i ==> !(code@.contains_key(#[trigger] events[j]@) && file@ == events[j]@
                    + ".gml"@),
        decreases events.len() - i,
    {
        if code.contains_key(events[i].as_str()) {
            let mut gml = events[i].clone();
            gml.append(".gml");
            if str_eq(gml.as_str(), file) {
                proof {
                    assert(names_view(events@)[i as int] == events[i as int]@);
                }
                return true;
            }
        }
        i = i + 1;
    }
    proof {
        assert forall|j: int|
            0 <= j < names_view(events@).len() && code@.contains_key(names_view(events@)[j])
                implies file@ != names_view(events@)[j] + ".gml"@ by {
            assert(names_view(events@)[j] == events[j]@);
        }
    }
    false
}

/// The files of an object's folder to delete when its code is written: those
/// of the listing (file names within the folder) that are neither the
/// object's `.yy` file nor the code file of one of its events that has code.
pub fn files_to_remove(
    object_name: &str,
    events: &Vec<String>,
    code: &StringMap<String>,
    listing: &Vec<String>,
) -> (r: Vec<String>)
    ensures
        names_view(r@) == stray_files(object_name@, names_view(events@), code@, names_view(listing@)),
{
    let mut out: Vec<String> = Vec::new();
    let mut i: usize = 0;
    while i < listing.len()
        invariant
            i <= listing.len(),
            names_view(out@) == stray_files(
                object_name@,
                names_view(events@),
                code@,
                names_view(listing@).take(i as int),
            ),
        decreases listing.len() - i,
    {
        proof {
            assert(names_view(listing@).take(i + 1).drop_last() =~= names_view(listing@).take(i as int));
        }
        let ghost before = out@;
        if !belongs(object_name, events, code, listing[i].as_str()) {
            out.push(listing[i].clone());
            proof {
                assert(names_view(out@) =~= names_view(before).push(listing[i as int]@));
            }
        }
        i = i + 1;
    }
    proof {
        assert(names_view(listing@).take(listing.len() as int) =~= names_view(listing@));
    }
    out
}

/// What serde_json's `from_str::<BTreeMap<String, String>>` gives for a
/// text: the entries of the map in the order of their keys, or the text of
/// the error.
pub uninterp spec fn json_string_map(text: Seq<char>) -> Result<Seq<(Seq<char>, Seq<char>)>, Seq<char>>;

/// serde_json's `from_str` into a `BTreeMap<String, String>`: the entries
/// of a JSON object whose values are all strings, in the order of their keys,
/// or the error's text. Nothing is claimed but that the result is a function
/// of the text.
#[verifier::external_body]
fn parse_string_map(text: &str) -> (r: Result<Vec<(String, String)>, String>)
    ensures
        match json_string_map(text@) {
            Ok(entries) => r matches Ok(v) && pairs_view(v@) == entries,
            Err(e) => r matches Err(s) && s@ == e,
        },
{
    match serde_json::from_str::<std::collections::BTreeMap<String, String>>(text) {
        Ok(map) => Ok(map.into_iter().collect()),
        Err(e) => Err(e.to_string()),
    }
}

/// Whether `r` is the code of an object with the events `events` read from
/// a JSON text that maps keys (`Create_0`) to code: the parser's error where
/// the text is no such map; `None` where a key names no event; else the code
/// that the entries give, each key read as the event it names.
pub open spec fn json_object_code_result(
    events: Seq<Seq<char>>,
    text: Seq<char>,
    r: Option<Result<StringMap<String>, ObjectCodeError>>,
) -> bool {
    match json_string_map(text) {
        Err(e) => r matches Some(Err(ObjectCodeError::BadJson(s))) && s@ == e,
        Ok(entries) => (r is None <==> !keys_name_events(entries)) && (r matches Some(res)
            ==> object_code_result(events, canonical_entries(entries), res)),
    }
}

/// The code of an object read from a JSON text that maps keys (`Create_0`)
/// to code. `None` where a key names no event.
pub fn object_code_from_json(events: &Vec<String>, text: &str) -> (r: Option<
    Result<StringMap<String>, ObjectCodeError>,
>)
    ensures
        json_object_code_result(names_view(events@), text@, r),
{
    match parse_string_map(text) {
        Err(e) => Some(Err(ObjectCodeError::BadJson(e))),
        Ok(entries) => match event_entries(&entries) {
            None => None,
            Some(named) => Some(select_object_code(events, &named)),
        },
    }
}

/// The data that a command gives for a resource's associated data.
#[derive(Debug, Clone, PartialEq, Eq)]
pub enum SerializedData {
    /// The data itself, as text.
    Value { data: String },
    /// A path to the data, from some relevant directory.
    Filepath { data: String },
    /// A request for the default data of the resource.
    DefaultValue,
}

/// What was read at the path of a `Filepath`: the text of a file, or the
/// code files of a folder, by event name.
#[derive(Debug, Clone, PartialEq, Eq)]
pub enum PathContents {
    File(String),
    Folder(Vec<(String, String)>),
}

/// The code of an object from the data of a command: a value is read as a
/// JSON map from keys to code; so is a file; a folder gives the code files
/// of the events; the default is empty code for each event. `None` where a
/// key of a map names no event.
pub fn object_code_from_data(
    events: &Vec<String>,
    incoming: &SerializedData,
    at_path: Option<PathContents>,
) -> (r: Option<Result<StringMap<String>, ObjectCodeError>>)
    requires
        incoming is Filepath ==> at_path is Some,
    ensures
        match incoming {
            SerializedData::Value { data } => json_object_code_result(names_view(events@), data@, r),
            SerializedData::Filepath { .. } => match at_path {
                Some(PathContents::File(text)) => json_object_code_result(
                    names_view(events@),
                    text@,
                    r,
                ),
                Some(PathContents::Folder(files)) => r matches Some(res) && object_code_result(
                    names_view(events@),
                    pairs_view(files@),
                    res,
                ),
                None => false,
            },
            SerializedData::DefaultValue => r matches Some(Ok(m)) && (forall|k: Seq<char>| #[trigger]
                m@.contains_key(k) <==> exists|j: int| 0 <= j < events.len() && events[j]@ == k)
                && forall|k: Seq<char>| #[trigger] m@.contains_key(k) ==> m@[k]@ == Seq::<char>::empty(),
        },
{
    match incoming {
        SerializedData::Value { data } => object_code_from_json(events, data.as_str()),
        SerializedData::Filepath { .. } => match at_path {
            Some(PathContents::File(text)) => object_code_from_json(events, text.as_str()),
            Some(PathContents::Folder(files)) => Some(select_object_code(events, &files)),
            None => None,
        },
        SerializedData::DefaultValue => Some(Ok(default_object_code(events))),
    }
}

/// Adding an event that an object lacks and then removing it gives back the
/// object's event list, and its code where the code had no entry for it.
pub proof fn law_add_then_remove_event(
    events: Seq<String>,
    code: Map<Seq<char>, String>,
    event: String,
    empty: String,
)
    requires
        !has_event(events, event@),
    ensures
        has_event(events.push(event), event@),
        forall|j: int| 0 <= j < events.len() ==> events.push(event)[j]@ != event@,
        events.push(event).remove(events.len() as int) == events,
        !code.contains_key(event@) ==> code.insert(event@, empty).remove(event@) == code,
{
    assert(events.push(event)[events.len() as int] == event);
    assert(events.push(event).remove(events.len() as int) =~= events);
    if !code.contains_key(event@) {
        assert(code.insert(event@, empty).remove(event@) =~= code);
    }
}

proof fn lemma_stray_files_do_not_belong(
    object_name: Seq<char>,
    events: Seq<Seq<char>>,
    code: Map<Seq<char>, String>,
    listing: Seq<Seq<char>>,
)
    ensures
        forall|i: int|
            0 <= i < stray_files(object_name, events, code, listing).len() ==> !belongs_in_object_folder(
                object_name,
                events,
                code,
                #[trigger] stray_files(object_name, events, code, listing)[i],
            ),
    decreases listing.len(),
{
    if listing.len() > 0 {
        let rest = listing.drop_last();
        lemma_stray_files_do_not_belong(object_name, events, code, rest);
        let before = stray_files(object_name, events, code, rest);
        let after = stray_files(object_name, events, code, listing);
        assert forall|i: int| 0 <= i < after.len() implies !belongs_in_object_folder(
            object_name,
            events,
            code,
            #[trigger] after[i],
        ) by {
            if i < before.len() {
                assert(after[i] == before[i]);
            }
        }
    }
}

proof fn lemma_written_files_belong(
    object_name: Seq<char>,
    events: Seq<Seq<char>>,
    code: Map<Seq<char>, String>,
)
    ensures
        forall|i: int|
            0 <= i < written_files(events, code).len() ==> belongs_in_object_folder(
                object_name,
                events,
                code,
                #[trigger] written_files(events, code)[i].0,
            ),
    decreases events.len(),
{
    if events.len() > 0 {
        let rest = events.drop_last();
        lemma_written_files_belong(object_name, rest, code);
        assert forall|i: int| 0 <= i < written_files(events, code).len() implies belongs_in_object_folder(
            object_name,
            events,
            code,
            #[trigger] written_files(events, code)[i].0,
        ) by {
            if i < written_files(rest, code).len() {
                assert(written_files(events, code)[i] == written_files(rest, code)[i]);
                let f = written_files(rest, code)[i].0;
                assert(belongs_in_object_folder(object_name, rest, code, f));
                if f != object_name + ".yy"@ {
                    let j = choose|j: int|
                        0 <= j < rest.len() && code.contains_key(rest[j]) && f == rest[j] + ".gml"@;
                    assert(events[j] == rest[j]);
                }
            } else {
                assert(events[events.len() - 1] == events.last());
            }
        }
    }
}

/// Writing an object's code deletes nothing that belongs in its folder:
/// neither the object's `.yy` file nor any code file that it writes is among
/// the files to delete.
pub proof fn law_written_files_are_kept(
    object_name: Seq<char>,
    events: Seq<Seq<char>>,
    code: Map<Seq<char>, String>,
    listing: Seq<Seq<char>>,
)
    ensures
        !stray_files(object_name, events, code, listing).contains(object_name + ".yy"@),
        forall|i: int|
            0 <= i < written_files(events, code).len() ==> !stray_files(
                object_name,
                events,
                code,
                listing,
            ).contains(#[trigger] written_files(events, code)[i].0),
{
    lemma_stray_files_do_not_belong(object_name, events, code, listing);
    lemma_written_files_belong(object_name, events, code);
}

/// The JSON text that serde_json's `to_string` writes for the map that a
/// sequence of entries gives when collected into a `BTreeMap<String, String>`.
pub uninterp spec fn json_text_of_entries(entries: Seq<(Seq<char>, Seq<char>)>) -> Seq<char>;

/// serde_json's `to_string` of the entries collected into a
/// `BTreeMap<String, String>` (a JSON object, keys in order). Writing such
/// a map cannot fail. Nothing is claimed but that the result is a function
/// of the entries.
#[verifier::external_body]
fn json_of_entries(entries: &Vec<(String, String)>) -> (r: String)
    ensures
        r@ == json_text_of_entries(pairs_view(entries@)),
{
    let map: std::collections::BTreeMap<String, String> = entries.iter().cloned().collect();
    serde_json::to_string(&map).unwrap_or_default()
}

/// The entries of an object's code, in the order of the code, as plain text.
pub open spec fn code_entries(code: StringMap<String>) -> Seq<(Seq<char>, Seq<char>)> {
    Seq::new(code.spec_len(), |i: int| (code.spec_key(i), code.spec_value(i)@))
}

/// The code of an object as a JSON map from event names to code, the form
/// in which a command hands it out.
pub fn object_code_json(code: &StringMap<String>) -> (r: String)
    ensures
        r@ == json_text_of_entries(code_entries(*code)),
{
    let mut entries: Vec<(String, String)> = Vec::new();
    let mut i: usize = 0;
    while i < code.len()
        invariant
            i <= code.spec_len(),
            entries.len() == i,
            forall|k: int|
                0 <= k < i ==> #[trigger] entries[k].0@ == code.spec_key(k) && entries[k].1@
                    == code.spec_value(k)@,
        decreases code.spec_len() - i,
    {
        let key = code.key_at(i).clone();
        let value = code.value_at(i).clone();
        entries.push((key, value));
        i = i + 1;
    }
    proof {
        assert(pairs_view(entries@) =~= code_entries(*code));
    }
    json_of_entries(&entries)
}

/// `f` is the code file of an event of the list that has code, with that code.
pub open spec fn is_code_file_of(events: Seq<Seq<char>>, code: Map<Seq<char>, String>, f: (Seq<char>, Seq<char>)) -> bool {
    exists|i: int| 0 <= i < events.len() && code.contains_key(events[i]) && f == (events[i] + ".gml"@, code[events[i]]@)
}

/// Every event of an object's list that has code gets its code file, written
/// with exactly that code; nothing else is written; and there are as many
/// files as events with code.
pub proof fn law_every_event_with_code_is_written(events: Seq<Seq<char>>, code: Map<Seq<char>, String>)
    ensures
        forall|i: int|
            0 <= i < events.len() && code.contains_key(#[trigger] events[i]) ==> written_files(events, code).contains(
                (events[i] + ".gml"@, code[events[i]]@),
            ),
        forall|j: int|
            0 <= j < written_files(events, code).len() ==> is_code_file_of(events, code, #[trigger] written_files(events, code)[j]),
        written_files(events, code).len() == events.filter(|e: Seq<char>| code.contains_key(e)).len(),
    decreases events.len(),
{
    reveal(Seq::filter);
    if events.len() > 0 {
        let init = events.drop_last();
        law_every_event_with_code_is_written(init, code);
        let rest = written_files(init, code);
        let all = written_files(events, code);
        assert forall|i: int|
            0 <= i < events.len() && code.contains_key(#[trigger] events[i]) implies all.contains(
                (events[i] + ".gml"@, code[events[i]]@),
            ) by {
            if i < events.len() - 1 {
                assert(init[i] == events[i]);
                let j = choose|j: int| 0 <= j < rest.len() && rest[j] == (init[i] + ".gml"@, code[init[i]]@);
                assert(all[j] == rest[j]);
            } else {
                assert(all[all.len() - 1] == (events[i] + ".gml"@, code[events[i]]@));
            }
        }
        assert forall|j: int| 0 <= j < all.len() implies is_code_file_of(events, code, #[trigger] all[j]) by {
            if j < rest.len() {
                assert(all[j] == rest[j]);
                assert(is_code_file_of(init, code, rest[j]));
                let i = choose|i: int|
                    0 <= i < init.len() && code.contains_key(init[i]) && rest[j] == (init[i] + ".gml"@, code[init[i]]@);
                assert(events[i] == init[i]);
            } else {
                let i = events.len() - 1;
                assert(events[i] == events.last());
                assert(code.contains_key(events.last()));
                assert(all[j] == (events[i] + ".gml"@, code[events[i]]@));
                assert(code.contains_key(events[i]));
            }
        }
    } else {
        assert(written_files(events, code) =~= Seq::<(Seq<char>, Seq<char>)>::empty());
    }
}

} // verus!
