//! Rendering: a template scanned to its end and its parts joined, and the
//! rule for a template that holds no placeholder.

use crate::cache::loaded_view;
use crate::format::{
    Cursor, Format, FormatError, Part, SpecFormatError, SpecPart, ARG_END, ARG_START,
};
use crate::loader::{LoadError, SpecLoadError};
use crate::table::VariableTable;
use vstd::prelude::*;
use vstd::string::*;

verus! {

/// The joined parts of a template, and how many of them were arguments.
pub struct Parts {
    pub text: Seq<char>,
    pub arguments: nat,
}

impl Parts {
    /// No part at all.
    pub open spec fn none() -> Parts {
        Parts { text: Seq::empty(), arguments: 0 }
    }

    /// These parts followed by one more.
    pub open spec fn with(self, part: SpecPart) -> Parts {
        match part {
            SpecPart::Plain(text) => Parts { text: self.text + text, arguments: self.arguments },
            SpecPart::Argument(value) => Parts {
                text: self.text + value,
                arguments: self.arguments + 1,
            },
        }
    }
}

/// The parts `done`, followed by all the parts that a scan from `cursor`
/// yields up to the end of the template; the first error of that scan if
/// there is one.
pub open spec fn scan_from(cursor: Cursor, done: Parts) -> Result<Parts, SpecFormatError>
    decreases cursor.input.len(),
    via scan_from_decreases
{
    match cursor.step() {
        None => Ok(done),
        Some((Err(error), _)) => Err(error),
        Some((Ok(part), after)) => scan_from(after, done.with(part)),
    }
}

#[via_fn]
proof fn scan_from_decreases(cursor: Cursor, done: Parts) {
    lemma_step_advances(cursor);
}

/// A step that yields a part consumes at least one character, and the
/// cursor after it stands that much further in the same template.
pub proof fn lemma_step_advances(cursor: Cursor)
    ensures
        match cursor.step() {
            Some((Ok(_), after)) => {
                &&& after.vars == cursor.vars
                &&& after.consumed > cursor.consumed
                &&& after.consumed + after.input.len() == cursor.consumed + cursor.input.len()
            },
            Some((Err(_), after)) => after == cursor,
            None => cursor.input.len() == 0,
        },
{
    cursor.input.index_of_first_ensures(ARG_START);
    cursor.input.index_of_first_ensures(ARG_END);
}

/// What a template renders to.
#[derive(Debug, PartialEq, Eq)]
pub enum Rendered {
    /// The template held a placeholder: this is its text, every placeholder
    /// replaced by its value.
    Text(String),
    /// The template held no placeholder: it is the name of a variable, to be
    /// looked up in the live environment.
    BareName(String),
}

/// A [`Rendered`] as a value.
pub enum SpecRendered {
    Text(Seq<char>),
    BareName(Seq<char>),
}

impl View for Rendered {
    type V = SpecRendered;

    open spec fn view(&self) -> SpecRendered {
        match self {
            Rendered::Text(text) => SpecRendered::Text(text@),
            Rendered::BareName(name) => SpecRendered::BareName(name@),
        }
    }
}

/// Why a template has no resolved string.
#[derive(Debug, PartialEq, Eq)]
pub enum ResolutionError<'a> {
    /// The template is malformed, or names a variable that the table lacks.
    Format(FormatError<'a>),
    /// The template is a bare name that the live environment does not define.
    BareNameNotFound(String),
}

/// A [`ResolutionError`] as a value.
pub enum SpecResolutionError {
    Format(SpecFormatError),
    BareNameNotFound(Seq<char>),
}

impl<'a> View for ResolutionError<'a> {
    type V = SpecResolutionError;

    open spec fn view(&self) -> SpecResolutionError {
        match self {
            ResolutionError::Format(error) => SpecResolutionError::Format(error@),
            ResolutionError::BareNameNotFound(name) => SpecResolutionError::BareNameNotFound(name@),
        }
    }
}

impl SpecResolutionError {
    /// The diagnostic that the error is reported with.
    pub open spec fn message(self) -> Seq<char> {
        match self {
            SpecResolutionError::Format(error) => "Format string error "@ + error.message(),
            SpecResolutionError::BareNameNotFound(name) => "env:"@ + name
                + ": Cannot fetch env value"@,
        }
    }
}

impl<'a> ResolutionError<'a> {
    /// The diagnostic that the error is reported with.
    pub fn message(&self) -> (text: String)
        ensures
            text@ == self@.message(),
    {
        match self {
            ResolutionError::Format(error) => {
                let mut text = "Format string error ".to_owned();
                let detail = error.message();
                text.append(detail.as_str());
                text
            },
            ResolutionError::BareNameNotFound(name) => {
                let mut text = "env:".to_owned();
                text.append(name.as_str());
                text.append(": Cannot fetch env value");
                text
            },
        }
    }
}

/// What `template` renders to against the table `vars`: the first error of
/// its scan, else its joined parts, taken as a bare name when none of them
/// was an argument.
pub open spec fn render_spec(template: Seq<char>, vars: Map<Seq<char>, Seq<char>>) -> Result<
    SpecRendered,
    SpecFormatError,
> {
    match scan_from(Cursor { input: template, vars, consumed: 0 }, Parts::none()) {
        Err(error) => Err(error),
        Ok(parts) => if parts.arguments == 0 {
            Ok(SpecRendered::BareName(parts.text))
        } else {
            Ok(SpecRendered::Text(parts.text))
        },
    }
}

/// The bare-name rule: the name stands for its value in the live
/// environment, and without one there is no result.
pub open spec fn shorthand_spec(name: Seq<char>, value: Option<Seq<char>>) -> Result<
    Seq<char>,
    SpecResolutionError,
> {
    match value {
        Some(value) => Ok(value),
        None => Err(SpecResolutionError::BareNameNotFound(name)),
    }
}

/// The value that an environment holds for a name, if any.
pub open spec fn lookup(env: Map<Seq<char>, Seq<char>>, name: Seq<char>) -> Option<Seq<char>> {
    if env.contains_key(name) {
        Some(env[name])
    } else {
        None
    }
}

/// The string that `template` resolves to: placeholders are looked up in
/// `vars`, a bare name in `env` alone.
pub open spec fn resolve_spec(
    template: Seq<char>,
    vars: Map<Seq<char>, Seq<char>>,
    env: Map<Seq<char>, Seq<char>>,
) -> Result<Seq<char>, SpecResolutionError> {
    match render_spec(template, vars) {
        Err(error) => Err(SpecResolutionError::Format(error)),
        Ok(SpecRendered::Text(text)) => Ok(text),
        Ok(SpecRendered::BareName(name)) => shorthand_spec(name, lookup(env, name)),
    }
}

/// Scans `template` to its end and joins what the scan yields.
pub fn render<'a>(template: &'a str, vars: &VariableTable) -> (r: Result<
    Rendered,
    FormatError<'a>,
>)
    ensures
        match render_spec(template@, vars@) {
            Ok(rendered) => r matches Ok(done) && done@ == rendered,
            Err(error) => r matches Err(failed) && failed@ == error,
        },
{
    let mut scan = Format::new(template, vars);
    let mut output = String::new();
    let mut arguments: usize = 0;
    let ghost start = scan@;
    loop
        invariant
            start == (Cursor { input: template@, vars: vars@, consumed: 0 }),
            scan@.in_range(),
            arguments <= scan@.consumed,
            scan_from(start, Parts::none()) == scan_from(
                scan@,
                Parts { text: output@, arguments: arguments as nat },
            ),
        decreases scan@.input.len(),
    {
        proof {
            lemma_step_advances(scan@);
        }
        match scan.next() {
            None => {
                return Ok(
                    if arguments == 0 {
                        Rendered::BareName(output)
                    } else {
                        Rendered::Text(output)
                    },
                );
            },
            Some(Err(error)) => {
                return Err(error);
            },
            Some(Ok(Part::Plain(text))) => {
                output.append(text);
            },
            Some(Ok(Part::Argument(value))) => {
                arguments = arguments + 1;
                output.append(value);
            },
        }
    }
}

/// Why a template has no rendering against what loading gave.
#[derive(Debug, Clone, Copy, PartialEq, Eq)]
pub enum Failure<'a, 'b> {
    /// Loading gave no table: this is why.
    Load(&'b LoadError),
    /// The template is malformed, or names a variable that the table lacks.
    Format(FormatError<'a>),
}

/// A [`Failure`] as a value.
pub enum SpecFailure {
    Load(SpecLoadError),
    Format(SpecFormatError),
}

impl<'a, 'b> View for Failure<'a, 'b> {
    type V = SpecFailure;

    open spec fn view(&self) -> SpecFailure {
        match *self {
            Failure::Load(error) => SpecFailure::Load(error@),
            Failure::Format(error) => SpecFailure::Format(error@),
        }
    }
}

impl SpecFailure {
    /// The diagnostic that the failure is reported with.
    pub open spec fn message(self) -> Seq<char> {
        match self {
            SpecFailure::Load(error) => error.message(),
            SpecFailure::Format(error) => SpecResolutionError::Format(error).message(),
        }
    }
}

impl<'a, 'b> Failure<'a, 'b> {
    /// The diagnostic that the failure is reported with.
    pub fn message(&self) -> (text: String)
        ensures
            text@ == self@.message(),
    {
        match *self {
            Failure::Load(error) => error.message(),
            Failure::Format(error) => ResolutionError::Format(error).message(),
        }
    }
}

/// What `template` renders to against what loading gave: a failure to load
/// is the result whatever the template holds, a table is rendered against.
pub open spec fn render_loaded_spec(
    template: Seq<char>,
    loaded: Result<Map<Seq<char>, Seq<char>>, SpecLoadError>,
) -> Result<SpecRendered, SpecFailure> {
    match loaded {
        Err(error) => Err(SpecFailure::Load(error)),
        Ok(vars) => match render_spec(template, vars) {
            Ok(rendered) => Ok(rendered),
            Err(error) => Err(SpecFailure::Format(error)),
        },
    }
}

/// Renders `template` against what loading gave.
pub fn render_loaded<'a, 'b>(
    template: &'a str,
    loaded: &'b Result<VariableTable, LoadError>,
) -> (r: Result<Rendered, Failure<'a, 'b>>)
    ensures
        match render_loaded_spec(template@, loaded_view(*loaded)) {
            Ok(rendered) => r matches Ok(done) && done@ == rendered,
            Err(error) => r matches Err(failed) && failed@ == error,
        },
{
    match loaded {
        Err(error) => Err(Failure::Load(error)),
        Ok(vars) => match render(template, vars) {
            Ok(rendered) => Ok(rendered),
            Err(error) => Err(Failure::Format(error)),
        },
    }
}

/// Applies the bare-name rule to `name`, given the value that the live
/// environment holds for it, if any.
pub fn shorthand<'a>(name: String, value: Option<String>) -> (r: Result<
    String,
    ResolutionError<'a>,
>)
    ensures
        match shorthand_spec(
            name@,
            match value {
                Some(value) => Some(value@),
                None => None,
            },
        ) {
            Ok(text) => r matches Ok(found) && found@ == text,
            Err(error) => r matches Err(failed) && failed@ == error,
        },
{
    match value {
        Some(value) => Ok(value),
        None => Err(ResolutionError::BareNameNotFound(name)),
    }
}

/// Resolves `template` against the table `vars` and the environment `env`.
pub fn resolve<'a>(template: &'a str, vars: &VariableTable, env: &VariableTable) -> (r: Result<
    String,
    ResolutionError<'a>,
>)
    ensures
        match resolve_spec(template@, vars@, env@) {
            Ok(text) => r matches Ok(found) && found@ == text,
            Err(error) => r matches Err(failed) && failed@ == error,
        },
{
    match render(template, vars) {
        Err(error) => Err(ResolutionError::Format(error)),
        Ok(Rendered::Text(text)) => Ok(text),
        Ok(Rendered::BareName(name)) => {
            let value = match env.get(name.as_str()) {
                Some(value) => Some(value.to_owned()),
                None => None,
            };
            shorthand(name, value)
        },
    }
}

/// The template that holds the one placeholder `{name}`, followed by `rest`.
pub open spec fn placeholder(name: Seq<char>, rest: Seq<char>) -> Seq<char> {
    seq![ARG_START] + name + seq![ARG_END] + rest
}

/// A name that a placeholder can hold: it has no closing bracket in it and
/// does not start with an opening one.
pub open spec fn is_placeholder_name(name: Seq<char>) -> bool {
    !name.contains(ARG_END) && (name.len() > 0 ==> name[0] != ARG_START)
}

/// A template without an opening bracket is a bare name: it renders to
/// itself, to be looked up, and resolves to what the environment alone holds
/// for it, whatever the table defines.
pub proof fn lemma_bare_name(
    template: Seq<char>,
    vars: Map<Seq<char>, Seq<char>>,
    env: Map<Seq<char>, Seq<char>>,
)
    requires
        !template.contains(ARG_START),
    ensures
        render_spec(template, vars) == Ok::<SpecRendered, SpecFormatError>(
            SpecRendered::BareName(template),
        ),
        resolve_spec(template, vars, env) == shorthand_spec(template, lookup(env, template)),
{
    let start = Cursor { input: template, vars, consumed: 0 };
    template.index_of_first_ensures(ARG_START);
    if template.len() == 0 {
        assert(start.step() is None);
        assert(scan_from(start, Parts::none()) == Ok::<Parts, SpecFormatError>(Parts::none()));
        assert(template =~= Seq::<char>::empty());
    } else {
        let after = start.advance(template.len() as int);
        let parts = Parts::none().with(SpecPart::Plain(template));
        assert(template[0] != ARG_START);
        assert(template.subrange(0, template.len() as int) =~= template);
        assert(start.step() == Some((Ok::<SpecPart, SpecFormatError>(SpecPart::Plain(template)), after)));
        assert(after.input.len() == 0);
        assert(after.step() is None);
        assert(scan_from(after, parts) == Ok::<Parts, SpecFormatError>(parts));
        assert(scan_from(start, Parts::none()) == scan_from(after, parts));
        assert(parts.text =~= template);
    }
}

/// The template `{name}` alone, for a name that the table defines, resolves
/// to the value of that name and nothing else.
pub proof fn lemma_single_placeholder(
    name: Seq<char>,
    vars: Map<Seq<char>, Seq<char>>,
    env: Map<Seq<char>, Seq<char>>,
)
    requires
        is_placeholder_name(name),
        vars.contains_key(name),
    ensures
        resolve_spec(placeholder(name, Seq::empty()), vars, env) == Ok::<
            Seq<char>,
            SpecResolutionError,
        >(vars[name]),
{
    let template = placeholder(name, Seq::empty());
    let start = Cursor { input: template, vars, consumed: 0 };
    lemma_placeholder_shape(name, Seq::empty());
    reveal_with_fuel(scan_from, 3);
    let end = name.len() as int + 1;
    let after = start.advance(end + 1);
    assert(after.input.len() == 0);
    assert(Seq::<char>::empty() + vars[name] =~= vars[name]);
}

/// In the template `{name}rest` the first closing bracket is the one behind
/// the name.
pub proof fn lemma_placeholder_shape(name: Seq<char>, rest: Seq<char>)
    requires
        is_placeholder_name(name),
    ensures
        ({
            let template = placeholder(name, rest);
            &&& template.len() == name.len() + 2 + rest.len()
            &&& template[0] == ARG_START
            &&& template[1] != ARG_START
            &&& template.index_of_first(ARG_END) == Some(name.len() as int + 1)
            &&& template.subrange(1, name.len() as int + 1) == name
            &&& template.subrange(name.len() as int + 2, template.len() as int) == rest
        }),
{
    let template = placeholder(name, rest);
    let end = name.len() as int + 1;
    template.index_of_first_ensures(ARG_END);
    assert(template[end] == ARG_END);
    assert forall|j: int| 0 <= j < end implies template[j] != ARG_END by {
        if j > 0 {
            assert(template[j] == name[j - 1]);
        }
    }
    if name.len() > 0 {
        assert(template[1] == name[0]);
    }
    assert(template.subrange(1, end) =~= name);
    assert(template.subrange(end + 1, template.len() as int) =~= rest);
}

/// A run of plain text up to the next placeholder, or to the end, is one
/// part: the scan goes on behind it with the run joined to what is done.
pub proof fn lemma_scan_plain(
    text: Seq<char>,
    rest: Seq<char>,
    vars: Map<Seq<char>, Seq<char>>,
    consumed: nat,
    done: Parts,
)
    requires
        text.len() > 0,
        !text.contains(ARG_START),
        rest.len() > 0 ==> rest[0] == ARG_START,
    ensures
        scan_from(Cursor { input: text + rest, vars, consumed }, done) == scan_from(
            Cursor { input: rest, vars, consumed: consumed + text.len() },
            done.with(SpecPart::Plain(text)),
        ),
{
    let input = text + rest;
    let start = Cursor { input, vars, consumed };
    let end = text.len() as int;
    input.index_of_first_ensures(ARG_START);
    assert(input[0] == text[0]);
    assert forall|j: int| 0 <= j < end implies input[j] != ARG_START by {
        assert(input[j] == text[j]);
    }
    if rest.len() > 0 {
        assert(input[end] == rest[0]);
    } else {
        assert(input =~= text);
    }
    assert(input.subrange(0, end) =~= text);
    assert(input.subrange(end, input.len() as int) =~= rest);
    assert(start.step() == Some(
        (Ok::<SpecPart, SpecFormatError>(SpecPart::Plain(text)), start.advance(end)),
    ));
}

/// A placeholder for a defined name, not followed by a closing bracket, is
/// one part: the scan goes on behind it with the value joined to what is
/// done.
pub proof fn lemma_scan_argument(
    name: Seq<char>,
    rest: Seq<char>,
    vars: Map<Seq<char>, Seq<char>>,
    consumed: nat,
    done: Parts,
)
    requires
        is_placeholder_name(name),
        vars.contains_key(name),
        rest.len() > 0 ==> rest[0] != ARG_END,
    ensures
        scan_from(Cursor { input: placeholder(name, rest), vars, consumed }, done) == scan_from(
            Cursor { input: rest, vars, consumed: consumed + name.len() + 2 },
            done.with(SpecPart::Argument(vars[name])),
        ),
{
    let input = placeholder(name, rest);
    let start = Cursor { input, vars, consumed };
    let end = name.len() as int + 1;
    lemma_placeholder_shape(name, rest);
    if rest.len() > 0 {
        assert(input[end + 1] == rest[0]);
    }
    assert(start.step() == Some(
        (Ok::<SpecPart, SpecFormatError>(SpecPart::Argument(vars[name])), start.advance(end + 1)),
    ));
}

/// A template that starts with two opening brackets fails at the second
/// one, whatever the table defines.
pub proof fn lemma_doubled_open(template: Seq<char>, vars: Map<Seq<char>, Seq<char>>)
    requires
        template.len() >= 2,
        template[0] == ARG_START,
        template[1] == ARG_START,
    ensures
        render_spec(template, vars) == Err::<SpecRendered, SpecFormatError>(
            SpecFormatError::BracketEscapeInvalid(1),
        ),
{
}

/// A placeholder followed at once by a second closing bracket fails at the
/// first one, though the name is defined.
pub proof fn lemma_doubled_close(
    name: Seq<char>,
    rest: Seq<char>,
    vars: Map<Seq<char>, Seq<char>>,
)
    requires
        is_placeholder_name(name),
        vars.contains_key(name),
    ensures
        render_spec(placeholder(name, seq![ARG_END] + rest), vars) == Err::<
            SpecRendered,
            SpecFormatError,
        >(SpecFormatError::BracketEscapeInvalid(name.len() + 1)),
{
    lemma_placeholder_shape(name, seq![ARG_END] + rest);
    let template = placeholder(name, seq![ARG_END] + rest);
    assert(template[name.len() as int + 2] == (seq![ARG_END] + rest)[0]);
}

/// A template that opens a placeholder and holds no closing bracket fails
/// where the placeholder opens, whatever the table defines.
pub proof fn lemma_unterminated(template: Seq<char>, vars: Map<Seq<char>, Seq<char>>)
    requires
        template.len() > 0,
        template[0] == ARG_START,
        template.len() > 1 ==> template[1] != ARG_START,
        !template.contains(ARG_END),
    ensures
        render_spec(template, vars) == Err::<SpecRendered, SpecFormatError>(
            SpecFormatError::MissingClosingBracket(0),
        ),
{
    template.index_of_first_ensures(ARG_END);
}

/// A template that starts with a placeholder for a name that the table does
/// not define fails with that name.
pub proof fn lemma_unknown_variable(
    name: Seq<char>,
    rest: Seq<char>,
    vars: Map<Seq<char>, Seq<char>>,
)
    requires
        is_placeholder_name(name),
        !vars.contains_key(name),
    ensures
        render_spec(placeholder(name, rest), vars) == Err::<SpecRendered, SpecFormatError>(
            SpecFormatError::MissingValue(name),
        ),
{
    lemma_placeholder_shape(name, rest);
}

/// A failure to load ends every resolution: whatever the template, the
/// result is that failure.
pub proof fn lemma_load_failure_ends_rendering(
    template: Seq<char>,
    other: Seq<char>,
    error: SpecLoadError,
)
    ensures
        render_loaded_spec(template, Err(error)) == Err::<SpecRendered, SpecFailure>(
            SpecFailure::Load(error),
        ),
        render_loaded_spec(template, Err(error)) == render_loaded_spec(other, Err(error)),
{
}

} // verus!
