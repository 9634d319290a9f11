//! The layout in which GameMaker Studio 2 writes sprite files.
//!
//! A JSON serializer drives the printer: at each step of the document (an
//! array or object opening or closing, a key, a value, a piece of string) it
//! asks the printer what to write. Most keys stand on lines of their own,
//! two spaces of indentation per level; the contents of `frames` and
//! `tracks` lists and of a few small objects (`spriteId`, `events`,
//! `moments`, `layers`, a nested `parent`) are written compactly.
use vstd::prelude::*;
use crate::string_map::str_eq;

verus! {

/// Which part of a sprite file the printer is in.
#[derive(Debug, Clone, Copy, PartialEq, Eq, Structural)]
pub enum SpritePrinterMode {
    /// Every key on a line of its own.
    Normal,
    /// Inside a `frames` or `tracks` list: how many arrays are open in it.
    Frames(u32),
    /// Inside a compact object: how many objects are open in it.
    Compact(u32),
}

/// The state of the printer between two steps of the document.
#[derive(Debug, Clone, Copy, PartialEq, Eq, Structural)]
pub struct SpritePrinter {
    /// The current level of indentation: open arrays and objects.
    pub current_indent: usize,
    /// Whether a value has ended since the last array or object opened.
    pub has_value: bool,
    /// Which part of the file the printer is in.
    pub mode: SpritePrinterMode,
    /// Whether the string being written is a key that may change the mode.
    pub check_key: bool,
    /// How many objects are open.
    pub object_stack: u32,
}

/// `unit` written `n` times.
pub open spec fn repeated(unit: Seq<char>, n: nat) -> Seq<char>
    decreases n,
{
    if n == 0 {
        Seq::empty()
    } else {
        repeated(unit, (n - 1) as nat) + unit
    }
}

/// The unit of indentation: two spaces.
pub open spec fn indent_unit() -> Seq<char> {
    seq![' ', ' ']
}

/// `"\n"` followed by `n` levels of indentation.
pub open spec fn new_line(n: nat) -> Seq<char> {
    "\n"@ + repeated(indent_unit(), n)
}

/// Writes `n` levels of indentation of the given unit.
pub fn indent(out: &mut String, n: usize, unit: &str)
    ensures
        final(out)@ == old(out)@ + repeated(unit@, n as nat),
{
    let mut i: usize = 0;
    proof {
        assert(old(out)@ + repeated(unit@, 0) =~= old(out)@);
    }
    while i < n
        invariant
            i <= n,
            out@ == old(out)@ + repeated(unit@, i as nat),
        decreases n - i,
    {
        out.append(unit);
        proof {
            assert(old(out)@ + repeated(unit@, i as nat) + unit@ =~= old(out)@ + repeated(
                unit@,
                (i + 1) as nat,
            ));
        }
        i = i + 1;
    }
}

/// Writes `n` levels of the printer's indentation.
fn indent_levels(out: &mut String, n: usize)
    ensures
        final(out)@ == old(out)@ + repeated(indent_unit(), n as nat),
{
    let unit = "  ";
    proof {
        reveal_strlit("  ");
        assert(unit@ =~= indent_unit());
    }
    indent(out, n, unit);
}

impl SpritePrinter {
    /// The printer at the start of a document.
    pub open spec fn initial() -> SpritePrinter {
        SpritePrinter {
            current_indent: 0,
            has_value: false,
            mode: SpritePrinterMode::Normal,
            check_key: false,
            object_stack: 0,
        }
    }

    /// An array can be opened without a counter overflowing.
    pub open spec fn can_begin_array(self) -> bool {
        &&& self.current_indent < usize::MAX
        &&& (self.mode matches SpritePrinterMode::Frames(v) ==> v < u32::MAX)
    }

    /// The state after an array opens: one level deeper, no value yet, and
    /// inside a `frames` list one more array open.
    pub open spec fn after_begin_array(self) -> SpritePrinter {
        SpritePrinter {
            current_indent: (self.current_indent + 1) as usize,
            has_value: false,
            mode: match self.mode {
                SpritePrinterMode::Frames(v) => SpritePrinterMode::Frames((v + 1) as u32),
                other => other,
            },
            check_key: self.check_key,
            object_stack: self.object_stack,
        }
    }

    /// An array can be closed: one is open, and inside a `frames` list an
    /// array of the list is open.
    pub open spec fn can_end_array(self) -> bool {
        &&& self.current_indent > 0
        &&& (self.mode matches SpritePrinterMode::Frames(v) ==> v > 0)
    }

    /// The state after an array closes: one level up; a `frames` list whose
    /// last array closes ends, and the printer is back to normal.
    pub open spec fn after_end_array(self) -> SpritePrinter {
        SpritePrinter {
            current_indent: (self.current_indent - 1) as usize,
            has_value: self.has_value,
            mode: match self.mode {
                SpritePrinterMode::Frames(v) => if v == 1 {
                    SpritePrinterMode::Normal
                } else {
                    SpritePrinterMode::Frames((v - 1) as u32)
                },
                other => other,
            },
            check_key: self.check_key,
            object_stack: self.object_stack,
        }
    }

    /// What closing an array writes: a bracket, on a new line at the
    /// outer level when the array received a value.
    pub open spec fn end_array_text(self) -> Seq<char> {
        if self.has_value {
            new_line((self.current_indent - 1) as nat) + "]"@
        } else {
            "]"@
        }
    }

    /// The state after a value of an array (or object) is finished.
    pub open spec fn after_value(self) -> SpritePrinter {
        SpritePrinter {
            current_indent: self.current_indent,
            has_value: true,
            mode: self.mode,
            check_key: self.check_key,
            object_stack: self.object_stack,
        }
    }

    /// An object can be opened without a counter overflowing.
    pub open spec fn can_begin_object(self) -> bool {
        &&& self.current_indent < usize::MAX
        &&& self.object_stack < u32::MAX
        &&& (self.mode matches SpritePrinterMode::Compact(v) ==> v < u32::MAX)
    }

    /// The state after an object opens: one level deeper, one more object
    /// open, no value yet, and inside a compact object one more open.
    pub open spec fn after_begin_object(self) -> SpritePrinter {
        SpritePrinter {
            current_indent: (self.current_indent + 1) as usize,
            has_value: false,
            mode: match self.mode {
                SpritePrinterMode::Compact(v) => SpritePrinterMode::Compact((v + 1) as u32),
                other => other,
            },
            check_key: self.check_key,
            object_stack: (self.object_stack + 1) as u32,
        }
    }

    /// An object can be closed: one is open.
    pub open spec fn can_end_object(self) -> bool {
        &&& self.current_indent > 0
        &&& self.object_stack > 0
    }

    /// The state after an object closes: one level up, one object fewer, and
    /// the end of any object closes compact printing.
    pub open spec fn after_end_object(self) -> SpritePrinter {
        SpritePrinter {
            current_indent: (self.current_indent - 1) as usize,
            has_value: self.has_value,
            mode: match self.mode {
                SpritePrinterMode::Compact(_) => SpritePrinterMode::Normal,
                other => other,
            },
            check_key: self.check_key,
            object_stack: (self.object_stack - 1) as u32,
        }
    }

    /// What closing an object writes: a brace, in normal printing on a new
    /// line at the outer level when the object received a value.
    pub open spec fn end_object_text(self) -> Seq<char> {
        if self.mode == SpritePrinterMode::Normal && self.has_value {
            new_line((self.current_indent - 1) as nat) + "}"@
        } else {
            "}"@
        }
    }

    /// The state after a key begins: in normal printing the key is watched.
    pub open spec fn after_begin_key(self) -> SpritePrinter {
        SpritePrinter {
            current_indent: self.current_indent,
            has_value: self.has_value,
            mode: self.mode,
            check_key: self.check_key || self.mode == SpritePrinterMode::Normal,
            object_stack: self.object_stack,
        }
    }

    /// What beginning a key writes: in normal printing a new line at the
    /// current level, else nothing.
    pub open spec fn begin_key_text(self) -> Seq<char> {
        if self.mode == SpritePrinterMode::Normal {
            new_line(self.current_indent as nat)
        } else {
            Seq::empty()
        }
    }

    /// The mode that a watched key selects.
    pub open spec fn key_mode(self, key: Seq<char>) -> SpritePrinterMode {
        if key == "frames"@ || key == "tracks"@ {
            SpritePrinterMode::Frames(0)
        } else if key == "spriteId"@ || key == "events"@ || key == "moments"@ || key
            == "layers"@ {
            SpritePrinterMode::Compact(0)
        } else if key == "parent"@ && self.object_stack > 1 {
            SpritePrinterMode::Compact(0)
        } else {
            self.mode
        }
    }

    /// The state after a piece of string is written: a watched key sets the
    /// mode; anything else changes nothing.
    pub open spec fn after_fragment(self, fragment: Seq<char>) -> SpritePrinter {
        if self.check_key {
            SpritePrinter {
                current_indent: self.current_indent,
                has_value: self.has_value,
                mode: self.key_mode(fragment),
                check_key: self.check_key,
                object_stack: self.object_stack,
            }
        } else {
            self
        }
    }

    /// The state after a key ends: no key is watched.
    pub open spec fn after_end_key(self) -> SpritePrinter {
        SpritePrinter {
            current_indent: self.current_indent,
            has_value: self.has_value,
            mode: self.mode,
            check_key: false,
            object_stack: self.object_stack,
        }
    }

    /// What separates a key from its value: a colon, and a space but inside
    /// a nested part of a compact or `frames` section.
    pub open spec fn begin_value_text(self) -> Seq<char> {
        match self.mode {
            SpritePrinterMode::Normal => ": "@,
            SpritePrinterMode::Frames(v) => if v == 0 {
                ": "@
            } else {
                ":"@
            },
            SpritePrinterMode::Compact(v) => if v == 0 {
                ": "@
            } else {
                ":"@
            },
        }
    }

    /// The printer at the start of a document.
    pub fn new() -> (p: SpritePrinter)
        ensures
            p == SpritePrinter::initial(),
    {
        SpritePrinter {
            current_indent: 0,
            has_value: false,
            mode: SpritePrinterMode::Normal,
            check_key: false,
            object_stack: 0,
        }
    }

    /// Opens an array: writes `[`.
    pub fn begin_array(&mut self, out: &mut String)
        requires
            old(self).can_begin_array(),
        ensures
            *final(self) == old(self).after_begin_array(),
            final(out)@ == old(out)@ + "["@,
    {
        self.current_indent = self.current_indent + 1;
        self.has_value = false;
        match self.mode {
            SpritePrinterMode::Frames(v) => {
                self.mode = SpritePrinterMode::Frames(v + 1);
            },
            _ => {},
        }
        out.append("[");
    }

    /// Closes an array.
    pub fn end_array(&mut self, out: &mut String)
        requires
            old(self).can_end_array(),
        ensures
            *final(self) == old(self).after_end_array(),
            final(out)@ == old(out)@ + old(self).end_array_text(),
    {
        self.current_indent = self.current_indent - 1;
        if self.has_value {
            out.append("\n");
            indent_levels(out, self.current_indent);
        }
        match self.mode {
            SpritePrinterMode::Frames(v) => {
                if v == 1 {
                    self.mode = SpritePrinterMode::Normal;
                } else {
                    self.mode = SpritePrinterMode::Frames(v - 1);
                }
            },
            _ => {},
        }
        out.append("]");
    }

    /// Begins a value of an array: a new line at the current level.
    pub fn begin_array_value(&self, out: &mut String)
        ensures
            final(out)@ == old(out)@ + new_line(self.current_indent as nat),
    {
        out.append("\n");
        indent_levels(out, self.current_indent);
    }

    /// Ends a value of an array: writes `,`.
    pub fn end_array_value(&mut self, out: &mut String)
        ensures
            *final(self) == old(self).after_value(),
            final(out)@ == old(out)@ + ","@,
    {
        out.append(",");
        self.has_value = true;
    }

    /// Opens an object: writes `{`.
    pub fn begin_object(&mut self, out: &mut String)
        requires
            old(self).can_begin_object(),
        ensures
            *final(self) == old(self).after_begin_object(),
            final(out)@ == old(out)@ + "{"@,
    {
        self.current_indent = self.current_indent + 1;
        self.object_stack = self.object_stack + 1;
        self.has_value = false;
        match self.mode {
            SpritePrinterMode::Compact(v) => {
                self.mode = SpritePrinterMode::Compact(v + 1);
            },
            _ => {},
        }
        out.append("{");
    }

    /// Closes an object.
    pub fn end_object(&mut self, out: &mut String)
        requires
            old(self).can_end_object(),
        ensures
            *final(self) == old(self).after_end_object(),
            final(out)@ == old(out)@ + old(self).end_object_text(),
    {
        self.current_indent = self.current_indent - 1;
        self.object_stack = self.object_stack - 1;
        match self.mode {
            SpritePrinterMode::Normal => {
                if self.has_value {
                    out.append("\n");
                    indent_levels(out, self.current_indent);
                }
            },
            SpritePrinterMode::Frames(_) => {},
            SpritePrinterMode::Compact(_) => {
                self.mode = SpritePrinterMode::Normal;
            },
        }
        out.append("}");
    }

    /// Begins a key of an object.
    pub fn begin_object_key(&mut self, out: &mut String)
        ensures
            *final(self) == old(self).after_begin_key(),
            final(out)@ == old(out)@ + old(self).begin_key_text(),
    {
        match self.mode {
            SpritePrinterMode::Normal => {
                out.append("\n");
                self.check_key = true;
                indent_levels(out, self.current_indent);
            },
            SpritePrinterMode::Frames(_) => {},
            SpritePrinterMode::Compact(_) => {},
        }
    }

    /// Writes a piece of a string; a watched key may change the mode.
    pub fn write_string_fragment(&mut self, out: &mut String, fragment: &str)
        ensures
            *final(self) == old(self).after_fragment(fragment@),
            final(out)@ == old(out)@ + fragment@,
    {
        if self.check_key {
            if str_eq(fragment, "frames") || str_eq(fragment, "tracks") {
                self.mode = SpritePrinterMode::Frames(0);
            } else if str_eq(fragment, "spriteId") || str_eq(fragment, "events") || str_eq(
                fragment,
                "moments",
            ) || str_eq(fragment, "layers") {
                self.mode = SpritePrinterMode::Compact(0);
            } else if str_eq(fragment, "parent") {
                if self.object_stack > 1 {
                    self.mode = SpritePrinterMode::Compact(0);
                }
            }
        }
        out.append(fragment);
    }

    /// Ends a key of an object; it writes nothing.
    pub fn end_object_key(&mut self)
        ensures
            *final(self) == old(self).after_end_key(),
    {
        self.check_key = false;
    }

    /// Separates a key from its value.
    pub fn begin_object_value(&self, out: &mut String)
        ensures
            final(out)@ == old(out)@ + self.begin_value_text(),
    {
        match self.mode {
            SpritePrinterMode::Normal => {
                out.append(": ");
            },
            SpritePrinterMode::Frames(v) => {
                if v == 0 {
                    out.append(": ");
                } else {
                    out.append(":");
                }
            },
            SpritePrinterMode::Compact(v) => {
                if v == 0 {
                    out.append(": ");
                } else {
                    out.append(":");
                }
            },
        }
    }

    /// Ends a value of an object: writes `,`.
    pub fn end_object_value(&mut self, out: &mut String)
        ensures
            *final(self) == old(self).after_value(),
            final(out)@ == old(out)@ + ","@,
    {
        self.has_value = true;
        out.append(",");
    }
}

/// An empty array prints as `[]` and leaves the printer at the level where
/// it opened; the one lasting change is that an empty list right after a
/// `frames` key ends the list.
pub proof fn law_empty_array(s: SpritePrinter)
    requires
        s.can_begin_array(),
    ensures
        s.after_begin_array().can_end_array(),
        "["@ + s.after_begin_array().end_array_text() == "[]"@,
        s.after_begin_array().after_end_array().current_indent == s.current_indent,
        s.after_begin_array().after_end_array().object_stack == s.object_stack,
        s.after_begin_array().after_end_array().mode == (if s.mode == SpritePrinterMode::Frames(
            0,
        ) {
            SpritePrinterMode::Normal
        } else {
            s.mode
        }),
{
    reveal_strlit("[");
    reveal_strlit("]");
    reveal_strlit("[]");
    assert("["@ + "]"@ =~= "[]"@);
}

/// An empty object prints as `{}` and leaves the printer at the level and
/// object depth where it opened; closing it ends compact printing.
pub proof fn law_empty_object(s: SpritePrinter)
    requires
        s.can_begin_object(),
    ensures
        s.after_begin_object().can_end_object(),
        "{"@ + s.after_begin_object().end_object_text() == "{}"@,
        s.after_begin_object().after_end_object().current_indent == s.current_indent,
        s.after_begin_object().after_end_object().object_stack == s.object_stack,
        s.after_begin_object().after_end_object().mode == (match s.mode {
            SpritePrinterMode::Compact(_) => SpritePrinterMode::Normal,
            other => other,
        }),
{
    reveal_strlit("{");
    reveal_strlit("}");
    reveal_strlit("{}");
    assert("{"@ + "}"@ =~= "{}"@);
}

/// An array that received a value closes on a new line indented to the
/// level at which it opened, and the printer returns to that level.
pub proof fn law_filled_array_closes_at_its_level(s: SpritePrinter)
    requires
        s.can_begin_array(),
    ensures
        s.after_begin_array().after_value().can_end_array(),
        s.after_begin_array().after_value().end_array_text() == new_line(s.current_indent as nat)
            + "]"@,
        s.after_begin_array().after_value().after_end_array().current_indent == s.current_indent,
{
}

/// In normal printing an object that received a value closes on a new line
/// indented to the level at which it opened, and the printer returns to
/// that level and object depth.
pub proof fn law_filled_object_closes_at_its_level(s: SpritePrinter)
    requires
        s.can_begin_object(),
        s.mode == SpritePrinterMode::Normal,
    ensures
        s.after_begin_object().after_value().can_end_object(),
        s.after_begin_object().after_value().end_object_text() == new_line(s.current_indent as nat)
            + "}"@,
        s.after_begin_object().after_value().after_end_object().current_indent == s.current_indent,
        s.after_begin_object().after_value().after_end_object().object_stack == s.object_stack,
{
}

/// In normal printing the key `frames` starts a compact list: the list that
/// follows it is counted, and when that list closes the printer is back to
/// normal printing at the level where the key stood.
pub proof fn law_frames_list_returns_to_normal(s: SpritePrinter)
    requires
        s.mode == SpritePrinterMode::Normal,
        s.current_indent < usize::MAX,
    ensures
        s.after_begin_key().after_fragment("frames"@).after_end_key().mode == SpritePrinterMode::Frames(
            0,
        ),
        s.after_begin_key().after_fragment("frames"@).after_end_key().can_begin_array(),
        s.after_begin_key().after_fragment("frames"@).after_end_key().after_begin_array().after_value().can_end_array(),
        s.after_begin_key().after_fragment("frames"@).after_end_key().after_begin_array().after_value().after_end_array().mode
            == SpritePrinterMode::Normal,
        s.after_begin_key().after_fragment("frames"@).after_end_key().after_begin_array().after_value().after_end_array().current_indent
            == s.current_indent,
{
}

/// The keys that start a compact section: when a watched key is written, the
/// keys `spriteId`, `events`, `moments` and `layers` (and `parent` inside a
/// nested object) switch the printer to compact printing at depth zero, the
/// keys `frames` and `tracks` to a `frames` list at depth zero, and any other
/// key leaves the mode as it was. A key that is not watched changes nothing.
pub proof fn law_watched_keys_select_the_mode(s: SpritePrinter, key: Seq<char>)
    ensures
        s.check_key && (key == "spriteId"@ || key == "events"@ || key == "moments"@ || key == "layers"@)
            ==> s.after_fragment(key).mode == SpritePrinterMode::Compact(0),
        s.check_key && key == "parent"@ && s.object_stack > 1 ==> s.after_fragment(key).mode
            == SpritePrinterMode::Compact(0),
        s.check_key && (key == "frames"@ || key == "tracks"@) ==> s.after_fragment(key).mode
            == SpritePrinterMode::Frames(0),
        s.check_key && key != "spriteId"@ && key != "events"@ && key != "moments"@ && key != "layers"@
            && key != "frames"@ && key != "tracks"@ && (key != "parent"@ || s.object_stack <= 1)
            ==> s.after_fragment(key).mode == s.mode,
        !s.check_key ==> s.after_fragment(key) == s,
        s.after_fragment(key).current_indent == s.current_indent,
        s.after_fragment(key).object_stack == s.object_stack,
        s.after_fragment(key).has_value == s.has_value,
        s.after_fragment(key).check_key == s.check_key,
{
    reveal_strlit("spriteId");
    reveal_strlit("events");
    reveal_strlit("moments");
    reveal_strlit("layers");
    reveal_strlit("parent");
    reveal_strlit("frames");
    reveal_strlit("tracks");
    assert("spriteId"@.len() != "frames"@.len() && "spriteId"@.len() != "tracks"@.len());
    assert("moments"@.len() != "frames"@.len() && "moments"@.len() != "tracks"@.len());
    assert("events"@[0] != "frames"@[0] && "events"@[0] != "tracks"@[0]);
    assert("layers"@[0] != "frames"@[0] && "layers"@[0] != "tracks"@[0]);
    assert("parent"@[0] != "frames"@[0] && "parent"@[0] != "tracks"@[0]);
    assert("parent"@[0] != "spriteId"@[0] && "parent"@[0] != "events"@[0] && "parent"@[0] != "layers"@[0]);
    assert("parent"@.len() != "moments"@.len());
}

/// In normal printing, a key `events` or `moments` (as a sprite's sequence
/// holds) makes its value print compactly: after the key is begun and
/// written, the printer is in compact mode at depth zero.
pub proof fn law_events_and_moments_print_compactly(s: SpritePrinter)
    requires
        s.mode == SpritePrinterMode::Normal,
    ensures
        s.after_begin_key().after_fragment("events"@).after_end_key().mode == SpritePrinterMode::Compact(0),
        s.after_begin_key().after_fragment("moments"@).after_end_key().mode == SpritePrinterMode::Compact(0),
        s.after_begin_key().after_fragment("spriteId"@).after_end_key().mode == SpritePrinterMode::Compact(0),
        s.after_begin_key().after_fragment("layers"@).after_end_key().mode == SpritePrinterMode::Compact(0),
{
    law_watched_keys_select_the_mode(s.after_begin_key(), "events"@);
    law_watched_keys_select_the_mode(s.after_begin_key(), "moments"@);
    law_watched_keys_select_the_mode(s.after_begin_key(), "spriteId"@);
    law_watched_keys_select_the_mode(s.after_begin_key(), "layers"@);
}

} // verus!
