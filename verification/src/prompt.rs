//! Prompt templates: a text with `{name}` placeholders for declared
//! variables, rendered in a single left-to-right pass.
//!
//! Only placeholders of declared variables are filled. Every other character
//! of the template, braces included, is copied to the output as it stands, and
//! a substituted value is never scanned again for placeholders.

use vstd::prelude::*;
use crate::strmap::StringMap;
use crate::text::{
    append_chars, chars_of, matches_at, occurs, occurs_at, occurs_in, string_of, texts,
};

verus! {

/// Why a template could not be rendered.
#[derive(Debug)]
pub enum TemplateError {
    /// The named declared variable has no value among the inputs.
    MissingVariable(String),
}

/// A template text together with the variables it declares, in order.
#[derive(Debug)]
pub struct PromptTemplate {
    template: String,
    variables: Vec<String>,
}

/// The placeholder that stands for the variable `name`.
pub open spec fn placeholder(name: Seq<char>) -> Seq<char> {
    seq!['{'] + name + seq!['}']
}

/// The first variable at or after index `from` whose placeholder occurs in
/// `template` at `pos`; `variables.len()` where there is none.
pub open spec fn matching_variable(
    template: Seq<char>,
    pos: int,
    variables: Seq<Seq<char>>,
    from: int,
) -> int
    decreases variables.len() - from,
{
    if from < 0 || from >= variables.len() {
        variables.len() as int
    } else if occurs_at(template, pos, placeholder(variables[from])) {
        from
    } else {
        matching_variable(template, pos, variables, from + 1)
    }
}

/// The declared variable whose placeholder starts at `pos`, if there is one:
/// the earliest declared one where several fit. The bound on the
/// placeholder's end is what its occurrence implies; it is restated so that
/// rendering visibly advances.
pub open spec fn placeholder_at(template: Seq<char>, pos: int, variables: Seq<Seq<char>>) -> Option<
    Seq<char>,
> {
    let v = matching_variable(template, pos, variables, 0);
    if 0 <= v < variables.len() && pos + variables[v].len() + 2 <= template.len() {
        Some(variables[v])
    } else {
        None
    }
}

/// What rendering produces for the part of `template` from `pos` on.
pub open spec fn rendered_from(
    template: Seq<char>,
    pos: int,
    variables: Seq<Seq<char>>,
    values: Map<Seq<char>, Seq<char>>,
) -> Seq<char>
    decreases template.len() - pos,
{
    if pos < 0 || pos >= template.len() {
        Seq::empty()
    } else if placeholder_at(template, pos, variables) is Some {
        let name = placeholder_at(template, pos, variables).unwrap();
        values[name] + rendered_from(template, pos + name.len() + 2, variables, values)
    } else {
        seq![template[pos]] + rendered_from(template, pos + 1, variables, values)
    }
}

/// The rendering of `template`: scanning from the left, each placeholder of a
/// declared variable is replaced by that variable's value and every other
/// character is kept.
pub open spec fn rendered(
    template: Seq<char>,
    variables: Seq<Seq<char>>,
    values: Map<Seq<char>, Seq<char>>,
) -> Seq<char> {
    rendered_from(template, 0, variables, values)
}

/// The first declared variable at or after index `from` that has no value;
/// `variables.len()` where every one has a value.
pub open spec fn first_missing(
    variables: Seq<Seq<char>>,
    values: Map<Seq<char>, Seq<char>>,
    from: int,
) -> int
    decreases variables.len() - from,
{
    if from < 0 || from >= variables.len() {
        variables.len() as int
    } else if !values.contains_key(variables[from]) {
        from
    } else {
        first_missing(variables, values, from + 1)
    }
}

/// Every declared variable has a value.
pub open spec fn all_supplied(variables: Seq<Seq<char>>, values: Map<Seq<char>, Seq<char>>) -> bool {
    forall|i: int| 0 <= i < variables.len() ==> values.contains_key(#[trigger] variables[i])
}

/// The outcome of formatting, as a function of the template and the inputs.
pub open spec fn format_outcome(
    template: Seq<char>,
    variables: Seq<Seq<char>>,
    values: Map<Seq<char>, Seq<char>>,
) -> Result<Seq<char>, Seq<char>> {
    let m = first_missing(variables, values, 0);
    if 0 <= m < variables.len() {
        Err(variables[m])
    } else {
        Ok(rendered(template, variables, values))
    }
}

/// `first_missing` finds a variable without a value exactly when there is one.
pub proof fn lemma_first_missing(
    variables: Seq<Seq<char>>,
    values: Map<Seq<char>, Seq<char>>,
    from: int,
)
    requires
        0 <= from <= variables.len(),
    ensures
        from <= first_missing(variables, values, from) <= variables.len(),
        first_missing(variables, values, from) < variables.len() ==> !values.contains_key(
            variables[first_missing(variables, values, from)],
        ),
        forall|i: int|
            from <= i < first_missing(variables, values, from) ==> values.contains_key(
                #[trigger] variables[i],
            ),
    decreases variables.len() - from,
{
    if from < variables.len() && values.contains_key(variables[from]) {
        lemma_first_missing(variables, values, from + 1);
    }
}

/// Formatting succeeds exactly when every declared variable has a value.
pub proof fn lemma_format_succeeds_iff_supplied(
    template: Seq<char>,
    variables: Seq<Seq<char>>,
    values: Map<Seq<char>, Seq<char>>,
)
    ensures
        format_outcome(template, variables, values) is Ok <==> all_supplied(variables, values),
{
    lemma_first_missing(variables, values, 0);
}

/// Two input mappings that agree on the first `upto` declared variables have
/// the same first missing variable among them.
proof fn lemma_first_missing_agrees(
    variables: Seq<Seq<char>>,
    a: Map<Seq<char>, Seq<char>>,
    b: Map<Seq<char>, Seq<char>>,
    from: int,
)
    requires
        0 <= from <= variables.len(),
        forall|i: int|
            0 <= i < variables.len() ==> a.contains_key(#[trigger] variables[i]) == b.contains_key(
                variables[i],
            ),
    ensures
        first_missing(variables, a, from) == first_missing(variables, b, from),
    decreases variables.len() - from,
{
    if from < variables.len() && a.contains_key(variables[from]) {
        lemma_first_missing_agrees(variables, a, b, from + 1);
    }
}

/// A match found by `matching_variable` is a declared variable.
proof fn lemma_matching_variable_range(
    template: Seq<char>,
    pos: int,
    variables: Seq<Seq<char>>,
    from: int,
)
    requires
        0 <= from <= variables.len(),
    ensures
        from <= matching_variable(template, pos, variables, from) <= variables.len(),
    decreases variables.len() - from,
{
    if from < variables.len() && !occurs_at(template, pos, placeholder(variables[from])) {
        lemma_matching_variable_range(template, pos, variables, from + 1);
    }
}

/// Rendering reads the values of declared variables only.
proof fn lemma_rendered_agrees(
    template: Seq<char>,
    pos: int,
    variables: Seq<Seq<char>>,
    a: Map<Seq<char>, Seq<char>>,
    b: Map<Seq<char>, Seq<char>>,
)
    requires
        forall|i: int| 0 <= i < variables.len() ==> a[#[trigger] variables[i]] == b[variables[i]],
    ensures
        rendered_from(template, pos, variables, a) == rendered_from(template, pos, variables, b),
    decreases template.len() - pos,
{
    if 0 <= pos < template.len() {
        match placeholder_at(template, pos, variables) {
            Some(name) => {
                lemma_matching_variable_range(template, pos, variables, 0);
                lemma_rendered_agrees(template, pos + name.len() + 2, variables, a, b);
            },
            None => {
                lemma_rendered_agrees(template, pos + 1, variables, a, b);
            },
        }
    }
}

/// Inputs that no declared variable names are ignored: two input mappings
/// that agree on every declared variable give the same outcome.
pub proof fn lemma_format_reads_declared_only(
    template: Seq<char>,
    variables: Seq<Seq<char>>,
    a: Map<Seq<char>, Seq<char>>,
    b: Map<Seq<char>, Seq<char>>,
)
    requires
        forall|i: int|
            0 <= i < variables.len() ==> {
                &&& a.contains_key(#[trigger] variables[i]) == b.contains_key(variables[i])
                &&& a[variables[i]] == b[variables[i]]
            },
    ensures
        format_outcome(template, variables, a) == format_outcome(template, variables, b),
{
    lemma_first_missing_agrees(variables, a, b, 0);
    lemma_rendered_agrees(template, 0, variables, a, b);
}

/// Each declared variable stands for its own placeholder.
pub open spec fn identity_values(
    variables: Seq<Seq<char>>,
    values: Map<Seq<char>, Seq<char>>,
) -> bool {
    forall|i: int|
        0 <= i < variables.len() ==> values.contains_key(#[trigger] variables[i])
            && values[variables[i]] == placeholder(variables[i])
}

/// A match found by `matching_variable` is a variable whose placeholder
/// occurs at the position.
proof fn lemma_matching_variable_occurs(
    template: Seq<char>,
    pos: int,
    variables: Seq<Seq<char>>,
    from: int,
)
    requires
        0 <= from <= variables.len(),
    ensures
        matching_variable(template, pos, variables, from) < variables.len() ==> occurs_at(
            template,
            pos,
            placeholder(variables[matching_variable(template, pos, variables, from)]),
        ),
    decreases variables.len() - from,
{
    lemma_matching_variable_range(template, pos, variables, from);
    if from < variables.len() && !occurs_at(template, pos, placeholder(variables[from])) {
        lemma_matching_variable_occurs(template, pos, variables, from + 1);
    }
}

proof fn lemma_identity_rendering_from(
    template: Seq<char>,
    pos: int,
    variables: Seq<Seq<char>>,
    values: Map<Seq<char>, Seq<char>>,
)
    requires
        identity_values(variables, values),
        0 <= pos <= template.len(),
    ensures
        rendered_from(template, pos, variables, values) == template.skip(pos),
    decreases template.len() - pos,
{
    if pos < template.len() {
        match placeholder_at(template, pos, variables) {
            Some(name) => {
                lemma_matching_variable_occurs(template, pos, variables, 0);
                let next = pos + name.len() + 2;
                lemma_identity_rendering_from(template, next, variables, values);
                assert(template.subrange(pos, next) + template.skip(next) =~= template.skip(pos));
            },
            None => {
                lemma_identity_rendering_from(template, pos + 1, variables, values);
                assert(seq![template[pos]] + template.skip(pos + 1) =~= template.skip(pos));
            },
        }
    } else {
        assert(template.skip(pos) =~= Seq::<char>::empty());
    }
}

/// Rendering touches nothing but the placeholders of declared variables:
/// where each variable's value is its own placeholder, the rendering is the
/// template itself.
pub proof fn lemma_identity_rendering(
    template: Seq<char>,
    variables: Seq<Seq<char>>,
    values: Map<Seq<char>, Seq<char>>,
)
    requires
        identity_values(variables, values),
    ensures
        format_outcome(template, variables, values) == Ok::<Seq<char>, Seq<char>>(template),
{
    lemma_first_missing(variables, values, 0);
    lemma_identity_rendering_from(template, 0, variables, values);
    assert(template.skip(0) =~= template);
}

/// One piece of a template as rendering reads it: text that is kept, or the
/// placeholder of a declared variable, given by the variable's name.
pub enum Piece {
    Kept(Seq<char>),
    Slot(Seq<char>),
}

/// The pieces of `template` from `pos` on, in order: scanning from the left,
/// each placeholder of a declared variable is one slot, and every character
/// at which no such placeholder starts is a kept piece of its own.
pub open spec fn pieces_from(template: Seq<char>, pos: int, variables: Seq<Seq<char>>) -> Seq<Piece>
    decreases template.len() - pos,
{
    if pos < 0 || pos >= template.len() {
        Seq::empty()
    } else if placeholder_at(template, pos, variables) is Some {
        let name = placeholder_at(template, pos, variables).unwrap();
        seq![Piece::Slot(name)] + pieces_from(template, pos + name.len() + 2, variables)
    } else {
        seq![Piece::Kept(seq![template[pos]])] + pieces_from(template, pos + 1, variables)
    }
}

/// The pieces of the whole template.
pub open spec fn pieces(template: Seq<char>, variables: Seq<Seq<char>>) -> Seq<Piece> {
    pieces_from(template, 0, variables)
}

/// The text of a piece in the template.
pub open spec fn piece_source(piece: Piece) -> Seq<char> {
    match piece {
        Piece::Kept(text) => text,
        Piece::Slot(name) => placeholder(name),
    }
}

/// The text of a piece in the rendering.
pub open spec fn piece_filled(piece: Piece, values: Map<Seq<char>, Seq<char>>) -> Seq<char> {
    match piece {
        Piece::Kept(text) => text,
        Piece::Slot(name) => values[name],
    }
}

/// The template text that `pieces` spell, one after the other.
pub open spec fn source_of(pieces: Seq<Piece>) -> Seq<char>
    decreases pieces.len(),
{
    if pieces.len() == 0 {
        Seq::empty()
    } else {
        piece_source(pieces[0]) + source_of(pieces.drop_first())
    }
}

/// The text that `pieces` give with each slot filled by its variable's value.
pub open spec fn filled(pieces: Seq<Piece>, values: Map<Seq<char>, Seq<char>>) -> Seq<char>
    decreases pieces.len(),
{
    if pieces.len() == 0 {
        Seq::empty()
    } else {
        piece_filled(pieces[0], values) + filled(pieces.drop_first(), values)
    }
}

/// By how much filling the slots of `pieces` lengthens the text: for each
/// slot the length of the value less that of the placeholder.
pub open spec fn growth(pieces: Seq<Piece>, values: Map<Seq<char>, Seq<char>>) -> int
    decreases pieces.len(),
{
    if pieces.len() == 0 {
        0
    } else {
        (match pieces[0] {
            Piece::Kept(text) => 0int,
            Piece::Slot(name) => values[name].len() - name.len() - 2,
        }) + growth(pieces.drop_first(), values)
    }
}

proof fn lemma_pieces_from(
    template: Seq<char>,
    pos: int,
    variables: Seq<Seq<char>>,
    values: Map<Seq<char>, Seq<char>>,
)
    requires
        0 <= pos <= template.len(),
    ensures
        source_of(pieces_from(template, pos, variables)) == template.skip(pos),
        filled(pieces_from(template, pos, variables), values) == rendered_from(
            template,
            pos,
            variables,
            values,
        ),
        forall|i: int|
            0 <= i < pieces_from(template, pos, variables).len() ==> (#[trigger] pieces_from(
                template,
                pos,
                variables,
            )[i] matches Piece::Slot(name) ==> variables.contains(name)),
    decreases template.len() - pos,
{
    let all = pieces_from(template, pos, variables);
    if pos < template.len() {
        match placeholder_at(template, pos, variables) {
            Some(name) => {
                lemma_matching_variable_occurs(template, pos, variables, 0);
                let next = pos + name.len() + 2;
                let rest = pieces_from(template, next, variables);
                lemma_pieces_from(template, next, variables, values);
                assert(all == seq![Piece::Slot(name)] + rest);
                assert(all[0] == Piece::Slot(name));
                assert(all.drop_first() =~= rest);
                assert(template.subrange(pos, next) + template.skip(next) =~= template.skip(pos));
                assert(variables.contains(name)) by {
                    let v = matching_variable(template, pos, variables, 0);
                    assert(variables[v] == name);
                }
                assert forall|i: int| 0 <= i < all.len() implies (#[trigger] all[i] matches Piece::Slot(
                    n,
                ) ==> variables.contains(n)) by {
                    if i > 0 {
                        assert(all[i] == rest[i - 1]);
                    }
                }
            },
            None => {
                let rest = pieces_from(template, pos + 1, variables);
                lemma_pieces_from(template, pos + 1, variables, values);
                assert(all == seq![Piece::Kept(seq![template[pos]])] + rest);
                assert(all[0] == Piece::Kept(seq![template[pos]]));
                assert(all.drop_first() =~= rest);
                assert(seq![template[pos]] + template.skip(pos + 1) =~= template.skip(pos));
                assert forall|i: int| 0 <= i < all.len() implies (#[trigger] all[i] matches Piece::Slot(
                    n,
                ) ==> variables.contains(n)) by {
                    if i > 0 {
                        assert(all[i] == rest[i - 1]);
                    }
                }
            },
        }
    } else {
        assert(template.skip(pos) =~= Seq::<char>::empty());
    }
}

proof fn lemma_kept_is_one_character(
    template: Seq<char>,
    pos: int,
    variables: Seq<Seq<char>>,
    i: int,
)
    requires
        0 <= pos <= template.len(),
        0 <= i < pieces_from(template, pos, variables).len(),
    ensures
        pieces_from(template, pos, variables)[i] matches Piece::Kept(text) ==> text.len() == 1,
    decreases template.len() - pos,
{
    let all = pieces_from(template, pos, variables);
    if pos < template.len() {
        match placeholder_at(template, pos, variables) {
            Some(name) => {
                let rest = pieces_from(template, pos + name.len() + 2, variables);
                assert(all == seq![Piece::Slot(name)] + rest);
                if i > 0 {
                    assert(all[i] == rest[i - 1]);
                    lemma_kept_is_one_character(template, pos + name.len() + 2, variables, i - 1);
                }
            },
            None => {
                let rest = pieces_from(template, pos + 1, variables);
                assert(all == seq![Piece::Kept(seq![template[pos]])] + rest);
                if i > 0 {
                    assert(all[i] == rest[i - 1]);
                    lemma_kept_is_one_character(template, pos + 1, variables, i - 1);
                }
            },
        }
    }
}

proof fn lemma_filled_length(pieces: Seq<Piece>, values: Map<Seq<char>, Seq<char>>)
    ensures
        filled(pieces, values).len() == source_of(pieces).len() + growth(pieces, values),
    decreases pieces.len(),
{
    if pieces.len() > 0 {
        lemma_filled_length(pieces.drop_first(), values);
    }
}

/// Rendering, piece by piece. The pieces spell the template. Where every
/// declared variable has a value, the rendering is the same pieces in the
/// same order with each slot replaced by its variable's value and each kept
/// character as it stands; every slot is the placeholder of a declared
/// variable; and the rendering is longer than the template by the lengths of
/// the values less those of the placeholders they replace.
pub proof fn lemma_rendering_by_pieces(
    template: Seq<char>,
    variables: Seq<Seq<char>>,
    values: Map<Seq<char>, Seq<char>>,
)
    requires
        all_supplied(variables, values),
    ensures
        source_of(pieces(template, variables)) == template,
        format_outcome(template, variables, values) == Ok::<Seq<char>, Seq<char>>(
            filled(pieces(template, variables), values),
        ),
        filled(pieces(template, variables), values).len() == template.len() + growth(
            pieces(template, variables),
            values,
        ),
        forall|i: int|
            0 <= i < pieces(template, variables).len() ==> (#[trigger] pieces(
                template,
                variables,
            )[i] matches Piece::Slot(name) ==> variables.contains(name) && values.contains_key(
                name,
            )),
{
    lemma_first_missing(variables, values, 0);
    lemma_pieces_from(template, 0, variables, values);
    lemma_filled_length(pieces(template, variables), values);
    assert(template.skip(0) =~= template);
    assert forall|i: int| 0 <= i < pieces(template, variables).len() implies (#[trigger] pieces(
        template,
        variables,
    )[i] matches Piece::Slot(name) ==> variables.contains(name) && values.contains_key(name)) by {
        if let Piece::Slot(name) = pieces(template, variables)[i] {
            let v = choose|v: int| 0 <= v < variables.len() && variables[v] == name;
            assert(values.contains_key(variables[v]));
        }
    }
}

proof fn lemma_filled_without(pieces: Seq<Piece>, values: Map<Seq<char>, Seq<char>>, c: char)
    requires
        forall|i: int|
            0 <= i < pieces.len() ==> !piece_filled(#[trigger] pieces[i], values).contains(c),
    ensures
        !filled(pieces, values).contains(c),
    decreases pieces.len(),
{
    if pieces.len() > 0 {
        let rest = pieces.drop_first();
        assert forall|i: int| 0 <= i < rest.len() implies !piece_filled(
            #[trigger] rest[i],
            values,
        ).contains(c) by {
            assert(rest[i] == pieces[i + 1]);
        }
        lemma_filled_without(rest, values, c);
        let head = piece_filled(pieces[0], values);
        let tail = filled(rest, values);
        if (head + tail).contains(c) {
            let i = choose|i: int| 0 <= i < (head + tail).len() && (head + tail)[i] == c;
            if i < head.len() {
                assert(head[i] == c);
                assert(head.contains(c));
            } else {
                assert(tail[i - head.len()] == c);
                assert(tail.contains(c));
            }
        }
    }
}

/// Where every opening brace of the template starts the placeholder of a
/// declared variable, and no value of a declared variable holds an opening
/// brace, the rendering holds no opening brace, and so no placeholder of any
/// variable is left in it.
pub proof fn lemma_no_open_brace_left(
    template: Seq<char>,
    variables: Seq<Seq<char>>,
    values: Map<Seq<char>, Seq<char>>,
    name: Seq<char>,
    pos: int,
)
    requires
        all_supplied(variables, values),
        forall|i: int|
            0 <= i < pieces(template, variables).len() ==> #[trigger] pieces(template, variables)[i]
                != Piece::Kept(seq!['{']),
        forall|i: int| 0 <= i < variables.len() ==> !values[#[trigger] variables[i]].contains('{'),
    ensures
        !rendered(template, variables, values).contains('{'),
        !occurs_at(rendered(template, variables, values), pos, placeholder(name)),
{
    let ps = pieces(template, variables);
    lemma_rendering_by_pieces(template, variables, values);
    lemma_pieces_from(template, 0, variables, values);
    assert forall|i: int| 0 <= i < ps.len() implies !piece_filled(#[trigger] ps[i], values).contains(
        '{',
    ) by {
        match ps[i] {
            Piece::Kept(text) => {
                lemma_kept_is_one_character(template, 0, variables, i);
                if text.contains('{') {
                    assert(text =~= seq!['{']);
                }
            },
            Piece::Slot(n) => {
                let v = choose|v: int| 0 <= v < variables.len() && variables[v] == n;
                assert(!values[variables[v]].contains('{'));
            },
        }
    }
    lemma_filled_without(ps, values, '{');
    let r = rendered(template, variables, values);
    if occurs_at(r, pos, placeholder(name)) {
        assert(r.subrange(pos, pos + placeholder(name).len())[0] == placeholder(name)[0]);
        assert(r[pos] == '{');
        assert(r.contains('{'));
    }
}

/// The index of the first pattern that occurs in `template` at `pos`, or the
/// number of patterns where none does.
fn find_placeholder(
    template: &[char],
    pos: usize,
    patterns: &Vec<Vec<char>>,
    Ghost(names): Ghost<Seq<Seq<char>>>,
) -> (out: usize)
    requires
        patterns@.len() == names.len(),
        forall|i: int| 0 <= i < names.len() ==> (#[trigger] patterns@[i])@ == placeholder(names[i]),
    ensures
        out == matching_variable(template@, pos as int, names, 0),
        out <= names.len(),
        out < names.len() ==> placeholder_at(template@, pos as int, names) == Some(
            names[out as int],
        ),
        out == names.len() ==> placeholder_at(template@, pos as int, names) is None,
{
    let mut v: usize = 0;
    while v < patterns.len()
        invariant
            v <= patterns.len(),
            patterns@.len() == names.len(),
            forall|i: int|
                0 <= i < names.len() ==> (#[trigger] patterns@[i])@ == placeholder(names[i]),
            matching_variable(template@, pos as int, names, 0) == matching_variable(
                template@,
                pos as int,
                names,
                v as int,
            ),
        decreases patterns.len() - v,
    {
        if matches_at(template, pos, patterns[v].as_slice()) {
            assert(placeholder(names[v as int]).len() == names[v as int].len() + 2);
            return v;
        }
        v += 1;
    }
    v
}

impl PromptTemplate {
    /// The template text.
    pub closed spec fn template_text(&self) -> Seq<char> {
        self.template@
    }

    /// The declared variables, in order.
    pub closed spec fn variable_names(&self) -> Seq<Seq<char>> {
        texts(self.variables@)
    }

    /// A template with the given text and declared variables.
    pub fn new(template: &str, variables: Vec<String>) -> (out: Self)
        ensures
            out.template_text() == template@,
            out.variable_names() == texts(variables@),
    {
        PromptTemplate { template: String::from_str(template), variables }
    }

    /// The template text.
    pub fn template(&self) -> (out: &String)
        ensures
            out@ == self.template_text(),
    {
        &self.template
    }

    /// The declared variables, in order.
    pub fn variables(&self) -> (out: &Vec<String>)
        ensures
            texts(out@) == self.variable_names(),
    {
        &self.variables
    }

    /// Whether `name` is one of the declared variables.
    pub fn declares(&self, name: &String) -> (out: bool)
        ensures
            out == self.variable_names().contains(name@),
    {
        let mut i: usize = 0;
        while i < self.variables.len()
            invariant
                i <= self.variables.len(),
                forall|j: int| 0 <= j < i ==> self.variable_names()[j] != name@,
            decreases self.variables.len() - i,
        {
            if self.variables[i] == *name {
                assert(self.variable_names()[i as int] == name@);
                return true;
            }
            i += 1;
        }
        false
    }

    /// Whether the placeholder of every declared variable occurs in the
    /// template.
    pub fn is_consistent(&self) -> (out: bool)
        ensures
            out == forall|i: int|
                0 <= i < self.variable_names().len() ==> occurs(
                    self.template_text(),
                    placeholder(#[trigger] self.variable_names()[i]),
                ),
    {
        let template = chars_of(self.template.as_str());
        let ghost names = self.variable_names();
        let mut v: usize = 0;
        while v < self.variables.len()
            invariant
                v <= self.variables.len(),
                template@ == self.template@,
                names == texts(self.variables@),
                forall|i: int|
                    0 <= i < v ==> occurs(template@, placeholder(#[trigger] names[i])),
            decreases self.variables.len() - v,
        {
            let mut pattern: Vec<char> = Vec::new();
            pattern.push('{');
            let name_chars = chars_of(self.variables[v].as_str());
            append_chars(&mut pattern, name_chars.as_slice());
            pattern.push('}');
            assert(pattern@ =~= placeholder(names[v as int]));
            if !occurs_in(template.as_slice(), pattern.as_slice()) {
                assert(!occurs(self.template_text(), placeholder(self.variable_names()[v as int])));
                return false;
            }
            v += 1;
        }
        true
    }

    /// Renders the template with `values`.
    ///
    /// Fails with the first declared variable that has no value; inputs that
    /// no declared variable names are ignored.
    pub fn format(&self, values: &StringMap) -> (out: Result<String, TemplateError>)
        ensures
            match format_outcome(self.template_text(), self.variable_names(), values@) {
                Ok(text) => out matches Ok(s) && s@ == text,
                Err(name) => out matches Err(TemplateError::MissingVariable(n)) && n@ == name,
            },
    {
        let ghost names = self.variable_names();
        let template = chars_of(self.template.as_str());
        let mut patterns: Vec<Vec<char>> = Vec::new();
        let mut fills: Vec<Vec<char>> = Vec::new();
        let mut v: usize = 0;
        while v < self.variables.len()
            invariant
                v <= self.variables.len(),
                names == texts(self.variables@),
                patterns@.len() == v,
                fills@.len() == v,
                first_missing(names, values@, 0) == first_missing(names, values@, v as int),
                forall|i: int| 0 <= i < v ==> (#[trigger] patterns@[i])@ == placeholder(names[i]),
                forall|i: int| 0 <= i < v ==> values@.contains_key(#[trigger] names[i]),
                forall|i: int| 0 <= i < v ==> (#[trigger] fills@[i])@ == values@[names[i]],
            decreases self.variables.len() - v,
        {
            let name = &self.variables[v];
            assert(name@ == names[v as int]);
            match values.get(name) {
                None => {
                    return Err(TemplateError::MissingVariable(name.clone()));
                },
                Some(value) => {
                    let mut pattern: Vec<char> = Vec::new();
                    pattern.push('{');
                    let name_chars = chars_of(name.as_str());
                    append_chars(&mut pattern, name_chars.as_slice());
                    pattern.push('}');
                    assert(pattern@ =~= placeholder(names[v as int]));
                    patterns.push(pattern);
                    fills.push(chars_of(value.as_str()));
                },
            }
            v += 1;
        }
        let count = self.variables.len();
        let mut out: Vec<char> = Vec::new();
        let mut pos: usize = 0;
        while pos < template.len()
            invariant
                template@ == self.template@,
                names.len() == count,
                patterns@.len() == count,
                fills@.len() == count,
                forall|i: int|
                    0 <= i < count ==> (#[trigger] patterns@[i])@ == placeholder(names[i]),
                forall|i: int| 0 <= i < count ==> (#[trigger] fills@[i])@ == values@[names[i]],
                out@ + rendered_from(template@, pos as int, names, values@) == rendered(
                    template@,
                    names,
                    values@,
                ),
            decreases template.len() - pos,
        {
            let v = find_placeholder(template.as_slice(), pos, &patterns, Ghost(names));
            let found = v < count;
            let ghost rest = out@;
            if found {
                append_chars(&mut out, fills[v].as_slice());
                assert(patterns@[v as int]@.len() == names[v as int].len() + 2);
                pos = pos + patterns[v].len();
                assert((rest + values@[names[v as int]]) + rendered_from(
                    template@,
                    pos as int,
                    names,
                    values@,
                ) =~= rest + (values@[names[v as int]] + rendered_from(
                    template@,
                    pos as int,
                    names,
                    values@,
                )));
            } else {
                out.push(template[pos]);
                pos = pos + 1;
                assert((rest + seq![template@[pos - 1]]) + rendered_from(
                    template@,
                    pos as int,
                    names,
                    values@,
                ) =~= rest + (seq![template@[pos - 1]] + rendered_from(
                    template@,
                    pos as int,
                    names,
                    values@,
                )));
            }
        }
        proof {
            lemma_first_missing(names, values@, 0);
            assert(out@ + Seq::<char>::empty() =~= out@);
        }
        Ok(string_of(out.as_slice()))
    }
}

} // verus!
