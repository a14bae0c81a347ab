//! What the replies of the Accessibility interface mean: its error codes in
//! words, and the errors that reading and writing attributes end in.

use crate::text;
use vstd::prelude::*;

verus! {

/// The code of success.
pub const AX_SUCCESS: i32 = 0;

/// The name of an error code worth explaining.
pub open spec fn code_name(code: i32) -> Option<Seq<char>> {
    if code == -25200 {
        Some("kAXErrorFailure"@)
    } else if code == -25201 {
        Some("kAXErrorIllegalArgument"@)
    } else if code == -25202 {
        Some("kAXErrorInvalidUIElement"@)
    } else if code == -25204 {
        Some("kAXErrorCannotComplete (is the target app responding?)"@)
    } else if code == -25205 {
        Some("kAXErrorAttributeUnsupported"@)
    } else if code == -25211 {
        Some("kAXErrorAPIDisabled (Accessibility permission missing)"@)
    } else if code == -25212 {
        Some("kAXErrorNoValue"@)
    } else {
        None
    }
}

/// An error code in words; the code is given either way.
pub open spec fn error_text(code: i32) -> Seq<char> {
    match code_name(code) {
        Some(name) => name + " ["@ + (text::signed_decimal(code as int) + "]"@),
        None => "AXError "@ + text::signed_decimal(code as int),
    }
}

/// An error code in words.
pub fn ax_err(code: i32) -> (r: String)
    ensures
        r@ == error_text(code),
{
    let number = text::signed_decimal_of(code as i64);
    let name = if code == -25200 {
        "kAXErrorFailure"
    } else if code == -25201 {
        "kAXErrorIllegalArgument"
    } else if code == -25202 {
        "kAXErrorInvalidUIElement"
    } else if code == -25204 {
        "kAXErrorCannotComplete (is the target app responding?)"
    } else if code == -25205 {
        "kAXErrorAttributeUnsupported"
    } else if code == -25211 {
        "kAXErrorAPIDisabled (Accessibility permission missing)"
    } else if code == -25212 {
        "kAXErrorNoValue"
    } else {
        return text::join("AXError ", &number);
    };
    text::join3(name, " [", &text::join(&number, "]"))
}

/// The error that reading an attribute ends in, none where it read.
pub open spec fn read_error(name: Seq<char>, code: i32, has_value: bool) -> Option<Seq<char>> {
    if code != AX_SUCCESS {
        Some("reading "@ + name + (" failed: "@ + error_text(code)))
    } else if !has_value {
        Some("reading "@ + name + " returned no value"@)
    } else {
        None
    }
}

/// Whether an attribute read, given the reply's code and whether a value came
/// with it.
pub fn copy_attr(name: &str, code: i32, has_value: bool) -> (r: Result<(), String>)
    ensures
        match r {
            Ok(_) => read_error(name@, code, has_value) is None,
            Err(e) => read_error(name@, code, has_value) == Some(e@),
        },
{
    if code != AX_SUCCESS {
        return Err(text::join3("reading ", name, &text::join(" failed: ", &ax_err(code))));
    }
    if !has_value {
        return Err(text::join3("reading ", name, " returned no value"));
    }
    Ok(())
}

/// Whether an attribute was written, given the reply's code.
pub fn set_attr(name: &str, code: i32) -> (r: Result<(), String>)
    ensures
        match r {
            Ok(_) => code == AX_SUCCESS,
            Err(e) => code != AX_SUCCESS && e@ == "writing "@ + name@ + (" failed: "@
                + error_text(code)),
        },
{
    if code != AX_SUCCESS {
        return Err(text::join3("writing ", name, &text::join(" failed: ", &ax_err(code))));
    }
    Ok(())
}

/// Where the search for the focused window starts.
#[derive(Clone, Copy, Debug, PartialEq, Eq, Structural)]
pub enum Start {
    /// At the app with this process id.
    App(i32),
    /// At the element that stands for the whole system.
    SystemWide,
}

/// Where the search for the focused window starts: at the app in front, where
/// one is known.
pub fn start(frontmost: Option<i32>) -> (r: Start)
    ensures
        r == (match frontmost {
            Some(pid) => Start::App(pid),
            None => Start::SystemWide,
        }),
{
    match frontmost {
        Some(pid) => Start::App(pid),
        None => Start::SystemWide,
    }
}

/// How far the search for the focused window came.
pub enum Search {
    /// No element was made to start at.
    NoElement(Start),
    /// The system has no app in front, for this reason.
    NoApp(String),
    /// The app has no focused window, for this reason.
    NoWindow(String),
    Found,
}

/// The outcome of the search for the focused window.
pub fn focused_window(search: Search) -> (r: Result<(), String>)
    ensures
        match search {
            Search::NoElement(Start::App(_)) => r matches Err(e) && e@
                == "AXUIElementCreateApplication returned null"@,
            Search::NoElement(Start::SystemWide) => r matches Err(e) && e@
                == "AXUIElementCreateSystemWide returned null"@,
            Search::NoApp(why) => r matches Err(e) && e@ == "no frontmost application: "@ + why@,
            Search::NoWindow(why) => r matches Err(e) && e@
                == "no focused window on the frontmost app: "@ + why@,
            Search::Found => r is Ok,
        },
{
    match search {
        Search::NoElement(Start::App(_)) => Err(
            text::copy("AXUIElementCreateApplication returned null"),
        ),
        Search::NoElement(Start::SystemWide) => Err(
            text::copy("AXUIElementCreateSystemWide returned null"),
        ),
        Search::NoApp(why) => Err(text::join("no frontmost application: ", &why)),
        Search::NoWindow(why) => Err(text::join("no focused window on the frontmost app: ", &why)),
        Search::Found => Ok(()),
    }
}

/// The two halves of a window's frame.
#[derive(Clone, Copy, Debug, PartialEq, Eq, Structural)]
pub enum Geometry {
    Position,
    Size,
}

impl Geometry {
    /// The attribute that holds it.
    pub open spec fn attribute_name(self) -> Seq<char> {
        match self {
            Geometry::Position => "AXPosition"@,
            Geometry::Size => "AXSize"@,
        }
    }

    /// The C type of its values.
    pub open spec fn c_type_name(self) -> Seq<char> {
        match self {
            Geometry::Position => "CGPoint"@,
            Geometry::Size => "CGSize"@,
        }
    }

    /// The attribute that holds it.
    pub fn attribute(self) -> (r: &'static str)
        ensures
            r@ == self.attribute_name(),
    {
        match self {
            Geometry::Position => "AXPosition",
            Geometry::Size => "AXSize",
        }
    }

    /// The C type of its values.
    fn c_type(self) -> (r: &'static str)
        ensures
            r@ == self.c_type_name(),
    {
        match self {
            Geometry::Position => "CGPoint",
            Geometry::Size => "CGSize",
        }
    }

    /// Whether a value that was read is of the right type.
    pub fn decoded(self, ok: bool) -> (r: Result<(), String>)
        ensures
            match r {
                Ok(_) => ok,
                Err(e) => !ok && e@ == self.attribute_name() + " did not decode as a "@
                    + self.c_type_name(),
            },
    {
        if ok {
            Ok(())
        } else {
            Err(text::join3(self.attribute(), " did not decode as a ", self.c_type()))
        }
    }

    /// Whether a value to write could be made.
    pub fn made(self, ok: bool) -> (r: Result<(), String>)
        ensures
            match r {
                Ok(_) => ok,
                Err(e) => !ok && e@ == "AXValueCreate("@ + self.c_type_name() + ") failed"@,
            },
    {
        if ok {
            Ok(())
        } else {
            Err(text::join3("AXValueCreate(", self.c_type(), ") failed"))
        }
    }
}

/// An error code in words ends in the code itself: bare where the code has no
/// name, and in brackets behind the name where it has one.
pub proof fn law_error_texts_hold_the_code(code: i32)
    ensures
        ({
            let number = text::signed_decimal(code as int);
            let named = |name: Seq<char>| error_text(code) == name + " ["@ + number + "]"@;
            &&& code == -25200 ==> named("kAXErrorFailure"@)
            &&& code == -25201 ==> named("kAXErrorIllegalArgument"@)
            &&& code == -25202 ==> named("kAXErrorInvalidUIElement"@)
            &&& code == -25204 ==> named("kAXErrorCannotComplete (is the target app responding?)"@)
            &&& code == -25205 ==> named("kAXErrorAttributeUnsupported"@)
            &&& code == -25211 ==> named("kAXErrorAPIDisabled (Accessibility permission missing)"@)
            &&& code == -25212 ==> named("kAXErrorNoValue"@)
            &&& code_name(code) is None ==> error_text(code) == "AXError "@ + number
            &&& code_name(code) is Some ==> -25212 <= code <= -25200
        }),
{
    let number = text::signed_decimal(code as int);
    if let Some(name) = code_name(code) {
        assert(name + " ["@ + (number + "]"@) =~= name + " ["@ + number + "]"@);
    }
}

/// An attribute reads exactly where the code is that of success and a value came
/// with it; the error names the attribute, and the code where there is one.
pub proof fn law_reads_fail_with_a_reason(name: Seq<char>, code: i32, has_value: bool)
    ensures
        read_error(name, code, has_value) is None <==> code == 0 && has_value,
        code != 0 ==> read_error(name, code, has_value) == Some(
            "reading "@ + name + " failed: "@ + error_text(code),
        ),
        code == 0 && !has_value ==> read_error(name, code, has_value) == Some(
            "reading "@ + name + " returned no value"@,
        ),
{
    assert("reading "@ + name + (" failed: "@ + error_text(code)) =~= "reading "@ + name
        + " failed: "@ + error_text(code));
}

/// A position is a point and a size is a size, each under its own attribute.
pub proof fn law_geometry_has_its_attribute()
    ensures
        Geometry::Position.attribute_name() == "AXPosition"@,
        Geometry::Position.c_type_name() == "CGPoint"@,
        Geometry::Size.attribute_name() == "AXSize"@,
        Geometry::Size.c_type_name() == "CGSize"@,
{
}

} // verus!
