//! Binding the arguments of Python calls to their parameters, and the
//! `TypeError` texts Python raises when they do not bind.

use vstd::prelude::*;

use crate::python::{raises, raises_type_error, type_error, PyExceptionClass, PythonError};
use crate::text::{decimal, str_equals, usize_to_decimal};

verus! {

/// Where a parameter's value comes from after binding a call's arguments.
#[derive(Debug, Clone, Copy, PartialEq, Eq, Structural)]
pub enum ArgumentSource {
    /// No value was passed.
    Missing,
    /// The positional argument with this index.
    Positional(usize),
    /// The keyword argument with this index.
    Keyword(usize),
}

/// Why a call's arguments do not bind.
#[derive(Debug)]
pub enum ArgumentError {
    /// More positional arguments than parameters.
    TooManyPositional {
        /// How many positional arguments were passed.
        given: usize,
    },
    /// A keyword that names no parameter.
    UnexpectedKeyword {
        /// The keyword.
        key: String,
    },
    /// A keyword for a parameter that already has a value.
    MultipleValues {
        /// The keyword.
        key: String,
    },
}

/// The first keyword that stops binding: unknown, or naming a filled parameter.
pub enum KeywordProblem {
    /// Keyword `j` names no parameter.
    Unexpected(int),
    /// Keyword `j` names a parameter that already has a value.
    Multiple(int),
}

/// The position of the first parameter called `key`.
pub open spec fn first_index_of(names: Seq<Seq<char>>, key: Seq<char>) -> Option<int>
    decreases names.len(),
{
    if names.len() == 0 {
        None
    } else if names[0] == key {
        Some(0)
    } else {
        match first_index_of(names.drop_first(), key) {
            Some(i) => Some(i + 1),
            None => None,
        }
    }
}

/// The slots after the positional arguments: the first `positional` parameters
/// take them in order, the rest are missing.
pub open spec fn positional_slots(parameter_count: nat, positional: nat) -> Seq<ArgumentSource> {
    Seq::new(
        parameter_count,
        |i: int|
            if i < positional {
                ArgumentSource::Positional(i as usize)
            } else {
                ArgumentSource::Missing
            },
    )
}

/// Bind the first `k` keywords, in order, after the positional arguments.
pub open spec fn bind_keywords(
    names: Seq<Seq<char>>,
    positional: nat,
    keys: Seq<Seq<char>>,
    k: int,
) -> Result<Seq<ArgumentSource>, KeywordProblem>
    decreases k,
{
    if k <= 0 {
        Ok(positional_slots(names.len(), positional))
    } else {
        match bind_keywords(names, positional, keys, k - 1) {
            Err(problem) => Err(problem),
            Ok(slots) => match first_index_of(names, keys[k - 1]) {
                None => Err(KeywordProblem::Unexpected(k - 1)),
                Some(index) => if slots[index] != ArgumentSource::Missing {
                    Err(KeywordProblem::Multiple(k - 1))
                } else {
                    Ok(slots.update(index, ArgumentSource::Keyword((k - 1) as usize)))
                },
            },
        }
    }
}

proof fn lemma_first_index_of_bounds(names: Seq<Seq<char>>, key: Seq<char>)
    ensures
        first_index_of(names, key) matches Some(i) ==> 0 <= i < names.len() && names[i] == key,
        first_index_of(names, key) is None ==> forall|i: int| 0 <= i < names.len() ==> names[i] != key,
    decreases names.len(),
{
    if names.len() > 0 && names[0] != key {
        lemma_first_index_of_bounds(names.drop_first(), key);
        if first_index_of(names, key) is None {
            assert forall|i: int| 0 <= i < names.len() implies names[i] != key by {
                if i > 0 {
                    assert(names.drop_first()[i - 1] == names[i]);
                }
            }
        }
    }
}

proof fn lemma_binding_error_persists(
    names: Seq<Seq<char>>,
    positional: nat,
    keys: Seq<Seq<char>>,
    k: int,
    m: int,
)
    requires
        0 <= k <= m,
        bind_keywords(names, positional, keys, k) is Err,
    ensures
        bind_keywords(names, positional, keys, m) == bind_keywords(names, positional, keys, k),
    decreases m - k,
{
    if m > k {
        lemma_binding_error_persists(names, positional, keys, k, m - 1);
    }
}

/// Keyword `j` is bound to the parameter of its name.
pub open spec fn keyword_bound(
    names: Seq<Seq<char>>,
    keys: Seq<Seq<char>>,
    slots: Seq<ArgumentSource>,
    j: int,
) -> bool {
    match first_index_of(names, keys[j]) {
        Some(p) => slots[p] == ArgumentSource::Keyword(j as usize),
        None => false,
    }
}

/// Slot `p`, when a keyword fills it, holds one of the first `k` keywords,
/// and that keyword is the parameter's name.
pub open spec fn slot_named_by_keyword(
    names: Seq<Seq<char>>,
    keys: Seq<Seq<char>>,
    slots: Seq<ArgumentSource>,
    p: int,
    k: int,
) -> bool {
    match slots[p] {
        ArgumentSource::Keyword(j) => j < k && names[p] == keys[j as int],
        _ => true,
    }
}

/// Slot `p`, when a positional argument fills it, holds argument `p`, one of
/// the `positional` given.
pub open spec fn slot_positional_in_place(slots: Seq<ArgumentSource>, p: int, positional: nat) -> bool {
    match slots[p] {
        ArgumentSource::Positional(q) => q as int == p && p < positional,
        _ => true,
    }
}

/// A successful binding gives each positional argument the parameter at its
/// position, and each keyword the parameter of its name; every keyword slot
/// names a parameter equal to its keyword, so no parameter is bound twice.
pub proof fn lemma_binding_assigns_by_name(
    names: Seq<Seq<char>>,
    positional: nat,
    keys: Seq<Seq<char>>,
    k: int,
)
    requires
        positional <= names.len(),
        positional <= usize::MAX,
        0 <= k <= keys.len(),
        keys.len() <= usize::MAX,
    ensures
        bind_keywords(names, positional, keys, k) is Ok ==> {
            let slots = bind_keywords(names, positional, keys, k)->Ok_0;
            &&& slots.len() == names.len()
            &&& forall|p: int|
                0 <= p < positional ==> #[trigger] slots[p] == ArgumentSource::Positional(p as usize)
            &&& forall|j: int| 0 <= j < k ==> #[trigger] keyword_bound(names, keys, slots, j)
            &&& forall|p: int|
                0 <= p < slots.len() ==> #[trigger] slot_named_by_keyword(names, keys, slots, p, k)
            &&& forall|p: int|
                0 <= p < slots.len() ==> #[trigger] slot_positional_in_place(slots, p, positional)
        },
    decreases k,
{
    lemma_bound_slots_len(names, positional, keys, k);
    if k > 0 {
        lemma_binding_assigns_by_name(names, positional, keys, k - 1);
        lemma_first_index_of_bounds(names, keys[k - 1]);
        if let Ok(slots) = bind_keywords(names, positional, keys, k) {
            let before = bind_keywords(names, positional, keys, k - 1)->Ok_0;
            let index = first_index_of(names, keys[k - 1])->Some_0;
            assert(before[index] == ArgumentSource::Missing);
            assert(slots == before.update(index, ArgumentSource::Keyword((k - 1) as usize)));
            assert forall|p: int| 0 <= p < positional implies #[trigger] slots[p]
                == ArgumentSource::Positional(p as usize) by {
                assert(before[p] == ArgumentSource::Positional(p as usize));
            }
            assert forall|j: int| 0 <= j < k implies #[trigger] keyword_bound(names, keys, slots, j) by {
                if j < k - 1 {
                    lemma_first_index_of_bounds(names, keys[j]);
                    assert(keyword_bound(names, keys, before, j));
                    let p = first_index_of(names, keys[j])->Some_0;
                    assert(before[p] == ArgumentSource::Keyword(j as usize));
                    assert(p != index);
                    assert(slots[p] == before[p]);
                } else {
                    assert(j == k - 1);
                    assert(0 <= index < before.len());
                    assert(slots[index] == ArgumentSource::Keyword((k - 1) as usize));
                }
            }
            assert forall|p: int| 0 <= p < slots.len() implies #[trigger] slot_named_by_keyword(
                names,
                keys,
                slots,
                p,
                k,
            ) by {
                if p != index {
                    assert(slot_named_by_keyword(names, keys, before, p, k - 1));
                    assert(slots[p] == before[p]);
                } else {
                    assert(slots[index] == ArgumentSource::Keyword((k - 1) as usize));
                    assert(names[index] == keys[k - 1]);
                }
            }
            assert forall|p: int| 0 <= p < slots.len() implies #[trigger] slot_positional_in_place(
                slots,
                p,
                positional,
            ) by {
                if p != index {
                    assert(slot_positional_in_place(before, p, positional));
                    assert(slots[p] == before[p]);
                }
            }
        }
    } else {
        if let Ok(slots) = bind_keywords(names, positional, keys, k) {
            assert(slots == positional_slots(names.len(), positional));
            assert forall|p: int| 0 <= p < slots.len() implies #[trigger] slot_named_by_keyword(
                names,
                keys,
                slots,
                p,
                k,
            ) by {
                assert(slots[p] == positional_slots(names.len(), positional)[p]);
            }
            assert forall|p: int| 0 <= p < slots.len() implies #[trigger] slot_positional_in_place(
                slots,
                p,
                positional,
            ) by {
                assert(slots[p] == positional_slots(names.len(), positional)[p]);
                if p < positional {
                    assert((p as usize) as int == p);
                }
            }
        }
    }
}

fn find_parameter(parameter_names: &Vec<&str>, key: &str) -> (res: Option<usize>)
    ensures
        res matches Some(i) ==> first_index_of(
            parameter_names@.map_values(|n: &str| n@),
            key@,
        ) == Some(i as int),
        res is None ==> first_index_of(parameter_names@.map_values(|n: &str| n@), key@) is None,
{
    let ghost names = parameter_names@.map_values(|n: &str| n@);
    assert(names.skip(0) =~= names);
    let mut i: usize = 0;
    while i < parameter_names.len()
        invariant
            i <= parameter_names.len(),
            names == parameter_names@.map_values(|n: &str| n@),
            first_index_of(names, key@) == (match first_index_of(names.skip(i as int), key@) {
                Some(j) => Some(j + i),
                None => None::<int>,
            }),
        decreases parameter_names.len() - i,
    {
        assert(names.skip(i as int).drop_first() =~= names.skip(i + 1));
        assert(names.skip(i as int)[0] == parameter_names@[i as int]@);
        if str_equals(parameter_names[i], key) {
            return Some(i);
        }
        i = i + 1;
    }
    assert(names.skip(i as int).len() == 0);
    None
}

/// Bind a call's arguments to parameters: positional arguments fill the first
/// parameters in order, then each keyword fills the parameter of that name.
///
/// Fails with `TooManyPositional` when there are more positional arguments than
/// parameters; otherwise with the first keyword (in order) that names no
/// parameter or a parameter that already has a value.
pub fn bind_arguments(
    parameter_names: &Vec<&str>,
    positional_count: usize,
    keyword_names: &Vec<String>,
) -> (res: Result<Vec<ArgumentSource>, ArgumentError>)
    ensures
        positional_count > parameter_names.len() ==> (res matches Err(
            ArgumentError::TooManyPositional { given },
        ) && given == positional_count),
        positional_count <= parameter_names.len() ==> match bind_keywords(
            parameter_names@.map_values(|n: &str| n@),
            positional_count as nat,
            keyword_names@.map_values(|k: String| k@),
            keyword_names.len() as int,
        ) {
            Ok(slots) => (res matches Ok(v) && v@ == slots),
            Err(KeywordProblem::Unexpected(j)) => (res matches Err(
                ArgumentError::UnexpectedKeyword { key },
            ) && key@ == keyword_names@[j]@),
            Err(KeywordProblem::Multiple(j)) => (res matches Err(ArgumentError::MultipleValues { key })
                && key@ == keyword_names@[j]@),
        },
{
    if positional_count > parameter_names.len() {
        return Err(ArgumentError::TooManyPositional { given: positional_count });
    }
    let ghost names = parameter_names@.map_values(|n: &str| n@);
    let ghost keys = keyword_names@.map_values(|k: String| k@);
    let mut slots: Vec<ArgumentSource> = Vec::new();
    let mut p: usize = 0;
    while p < parameter_names.len()
        invariant
            p <= parameter_names.len(),
            positional_count <= parameter_names.len(),
            slots@ == positional_slots(parameter_names.len() as nat, positional_count as nat).take(
                p as int,
            ),
        decreases parameter_names.len() - p,
    {
        if p < positional_count {
            slots.push(ArgumentSource::Positional(p));
        } else {
            slots.push(ArgumentSource::Missing);
        }
        p = p + 1;
        assert(slots@ =~= positional_slots(parameter_names.len() as nat, positional_count as nat).take(
            p as int,
        ));
    }
    assert(slots@ =~= positional_slots(names.len(), positional_count as nat));
    let mut k: usize = 0;
    while k < keyword_names.len()
        invariant
            k <= keyword_names.len(),
            names == parameter_names@.map_values(|n: &str| n@),
            keys == keyword_names@.map_values(|k: String| k@),
            bind_keywords(names, positional_count as nat, keys, k as int) == Ok::<
                Seq<ArgumentSource>,
                KeywordProblem,
            >(slots@),
            slots@.len() == names.len(),
            positional_count <= parameter_names.len(),
        decreases keyword_names.len() - k,
    {
        let key = keyword_names[k].as_str();
        proof {
            lemma_first_index_of_bounds(names, keys[k as int]);
        }
        match find_parameter(parameter_names, key) {
            None => {
                proof {
                    lemma_binding_error_persists(
                        names,
                        positional_count as nat,
                        keys,
                        k + 1,
                        keyword_names.len() as int,
                    );
                }
                return Err(ArgumentError::UnexpectedKeyword { key: keyword_names[k].clone() });
            },
            Some(index) => {
                if slots[index] != ArgumentSource::Missing {
                    proof {
                        lemma_binding_error_persists(
                            names,
                            positional_count as nat,
                            keys,
                            k + 1,
                            keyword_names.len() as int,
                        );
                    }
                    return Err(ArgumentError::MultipleValues { key: keyword_names[k].clone() });
                }
                slots.set(index, ArgumentSource::Keyword(k));
            },
        }
        k = k + 1;
    }
    Ok(slots)
}

/// `F got an unexpected keyword argument 'K'`.
pub fn unexpected_keyword_message(function: &str, key: &str) -> (res: String)
    ensures
        res@ == function@ + " got an unexpected keyword argument '"@ + key@ + "'"@,
{
    let mut text = String::from_str(function);
    text.append(" got an unexpected keyword argument '");
    text.append(key);
    text.append("'");
    text
}

/// `F got multiple values for argument 'K'`.
pub fn multiple_values_message(function: &str, key: &str) -> (res: String)
    ensures
        res@ == function@ + " got multiple values for argument '"@ + key@ + "'"@,
{
    let mut text = String::from_str(function);
    text.append(" got multiple values for argument '");
    text.append(key);
    text.append("'");
    text
}

/// `F missing 1 required positional argument: 'P'`.
pub fn missing_argument_message(function: &str, parameter: &str) -> (res: String)
    ensures
        res@ == function@ + " missing 1 required positional argument: '"@ + parameter@ + "'"@,
{
    let mut text = String::from_str(function);
    text.append(" missing 1 required positional argument: '");
    text.append(parameter);
    text.append("'");
    text
}

/// `F takes from 1 to M positional arguments but G were given`.
pub fn positional_range_message(function: &str, max_positional: usize, given: usize) -> (res: String)
    ensures
        res@ == function@ + " takes from 1 to "@ + decimal(max_positional as nat)
            + " positional arguments but "@ + decimal(given as nat) + " were given"@,
{
    let mut text = String::from_str(function);
    text.append(" takes from 1 to ");
    let max_digits = usize_to_decimal(max_positional);
    text.append(max_digits.as_str());
    text.append(" positional arguments but ");
    let given_digits = usize_to_decimal(given);
    text.append(given_digits.as_str());
    text.append(" were given");
    text
}

/// The `TypeError` text for a keyword that stops binding.
pub open spec fn keyword_problem_text(
    function: Seq<char>,
    problem: KeywordProblem,
    keys: Seq<Seq<char>>,
) -> Seq<char> {
    match problem {
        KeywordProblem::Unexpected(j) => function + " got an unexpected keyword argument '"@
            + keys[j] + "'"@,
        KeywordProblem::Multiple(j) => function + " got multiple values for argument '"@ + keys[j]
            + "'"@,
    }
}

/// The outcome of binding a call: too many positional arguments (with the
/// stated text), a keyword problem, a missing required first parameter, or
/// the bound slots.
pub open spec fn call_binding_holds(
    res: Result<Vec<ArgumentSource>, PythonError>,
    function: Seq<char>,
    names: Seq<Seq<char>>,
    positional: nat,
    keys: Seq<Seq<char>>,
    too_many_text: Seq<char>,
    first_required: bool,
) -> bool {
    match binding_outcome(function, names, positional, keys, too_many_text, first_required) {
        Err(text) => raises_type_error(res, text),
        Ok(slots) => (res matches Ok(v) && v@ == slots),
    }
}

/// The slots a call binds, or the text of the `TypeError` it raises.
pub open spec fn binding_outcome(
    function: Seq<char>,
    names: Seq<Seq<char>>,
    positional: nat,
    keys: Seq<Seq<char>>,
    too_many_text: Seq<char>,
    first_required: bool,
) -> Result<Seq<ArgumentSource>, Seq<char>> {
    if positional > names.len() {
        Err(too_many_text)
    } else {
        match bind_keywords(names, positional, keys, keys.len() as int) {
            Err(problem) => Err(keyword_problem_text(function, problem, keys)),
            Ok(slots) => if first_required && slots[0] == ArgumentSource::Missing {
                Err(function + " missing 1 required positional argument: '"@ + names[0] + "'"@)
            } else {
                Ok(slots)
            },
        }
    }
}

proof fn lemma_bound_slots_len(
    names: Seq<Seq<char>>,
    positional: nat,
    keys: Seq<Seq<char>>,
    k: int,
)
    ensures
        bind_keywords(names, positional, keys, k) matches Ok(slots) ==> slots.len() == names.len(),
        bind_keywords(names, positional, keys, k) matches Err(KeywordProblem::Unexpected(j)) ==> 0
            <= j < k,
        bind_keywords(names, positional, keys, k) matches Err(KeywordProblem::Multiple(j)) ==> 0
            <= j < k,
    decreases k,
{
    if k > 0 {
        lemma_bound_slots_len(names, positional, keys, k - 1);
        lemma_first_index_of_bounds(names, keys[k - 1]);
    }
}

/// Bind a call's arguments, turning every failure except too many positional
/// arguments into the `TypeError` Python raises for it.
fn bind_call(
    function: &str,
    parameter_names: &Vec<&str>,
    positional_count: usize,
    keyword_names: &Vec<String>,
    too_many_message: String,
    first_required: bool,
) -> (res: Result<Vec<ArgumentSource>, PythonError>)
    requires
        parameter_names.len() > 0,
    ensures
        call_binding_holds(
            res,
            function@,
            parameter_names@.map_values(|n: &str| n@),
            positional_count as nat,
            keyword_names@.map_values(|k: String| k@),
            too_many_message@,
            first_required,
        ),
{
    let ghost keys = keyword_names@.map_values(|k: String| k@);
    let ghost names = parameter_names@.map_values(|n: &str| n@);
    proof {
        lemma_bound_slots_len(names, positional_count as nat, keys, keys.len() as int);
    }
    match bind_arguments(parameter_names, positional_count, keyword_names) {
        Err(ArgumentError::TooManyPositional { .. }) => Err(type_error(too_many_message)),
        Err(ArgumentError::UnexpectedKeyword { key }) => Err(
            type_error(unexpected_keyword_message(function, key.as_str())),
        ),
        Err(ArgumentError::MultipleValues { key }) => Err(
            type_error(multiple_values_message(function, key.as_str())),
        ),
        Ok(slots) => {
            if first_required && slots[0] == ArgumentSource::Missing {
                Err(type_error(missing_argument_message(function, parameter_names[0])))
            } else {
                Ok(slots)
            }
        },
    }
}

/// The parameters of `PDF.open()`, in positional order.
pub open spec fn pdf_open_parameter_names() -> Seq<Seq<char>> {
    seq![
        "path_or_fp"@,
        "pages"@,
        "laparams"@,
        "password"@,
        "strict_metadata"@,
        "unicode_norm"@,
        "repair"@,
        "gs_path"@,
        "repair_setting"@,
        "raise_unicode_errors"@,
    ]
}

/// The parameters of `Container.to_json()` after `self`, in positional order.
pub open spec fn to_json_parameter_names() -> Seq<Seq<char>> {
    seq!["stream"@, "object_types"@, "include_attrs"@, "exclude_attrs"@, "precision"@, "indent"@]
}

/// The parameters of `Container.to_csv()` after `self`, in positional order.
pub open spec fn to_csv_parameter_names() -> Seq<Seq<char>> {
    seq!["stream"@, "object_types"@, "precision"@, "include_attrs"@, "exclude_attrs"@]
}

/// An optional parameter: absent when not passed or passed as `None`.
#[derive(Debug, Clone, Copy, PartialEq, Eq, Structural)]
pub enum OptionalArgument {
    /// Not passed, or passed as `None`.
    Absent,
    /// Passed, by this argument.
    Given(ArgumentSource),
}

/// A boolean parameter: its default when not passed.
#[derive(Debug, Clone, Copy, PartialEq, Eq, Structural)]
pub enum FlagArgument {
    /// Not passed: this value.
    Default(bool),
    /// Passed, by this argument (converted to `bool` by the caller).
    Given(ArgumentSource),
}

/// A text parameter: its default when not passed.
#[derive(Debug, Clone, Copy)]
pub enum TextArgument {
    /// Not passed: this value.
    Default(&'static str),
    /// Passed, by this argument.
    Given(ArgumentSource),
}

/// The resolved parameters of `PDF.open()`.
#[derive(Debug, Clone, Copy)]
pub struct PdfOpenArgs {
    /// The document source (required).
    pub path_or_fp: ArgumentSource,
    /// The selected page numbers.
    pub pages: OptionalArgument,
    /// Layout analysis parameters.
    pub laparams: OptionalArgument,
    /// The password.
    pub password: OptionalArgument,
    /// Whether unparsable metadata is an error (default `false`).
    pub strict_metadata: FlagArgument,
    /// The Unicode normalization form.
    pub unicode_norm: OptionalArgument,
    /// Whether to repair the document first (default `false`).
    pub repair: FlagArgument,
    /// The Ghostscript path used for repair.
    pub gs_path: OptionalArgument,
    /// The repair setting (default `'default'`).
    pub repair_setting: TextArgument,
    /// Whether malformed annotation text raises; absent when not passed.
    pub raise_unicode_errors: OptionalArgument,
}

/// An optional parameter bound to `source`: absent when nothing or `None`
/// was passed. `positional_none[p]` / `keyword_none[k]` tell which passed
/// values are `None`.
pub open spec fn optional_argument_spec(
    source: ArgumentSource,
    positional_none: Seq<bool>,
    keyword_none: Seq<bool>,
) -> OptionalArgument {
    match source {
        ArgumentSource::Missing => OptionalArgument::Absent,
        ArgumentSource::Positional(p) => if positional_none[p as int] {
            OptionalArgument::Absent
        } else {
            OptionalArgument::Given(source)
        },
        ArgumentSource::Keyword(k) => if keyword_none[k as int] {
            OptionalArgument::Absent
        } else {
            OptionalArgument::Given(source)
        },
    }
}

/// The resolved parameters of `PDF.open()` for bound slots: `None` counts as
/// absent for `pages`, `laparams`, `password`, `unicode_norm` and `gs_path`;
/// `strict_metadata` and `repair` default to `false`, `repair_setting` to
/// `'default'`; `raise_unicode_errors` is passed on as given.
pub open spec fn pdf_open_resolved(
    slots: Seq<ArgumentSource>,
    positional_none: Seq<bool>,
    keyword_none: Seq<bool>,
) -> PdfOpenArgs {
    PdfOpenArgs {
        path_or_fp: slots[0],
        pages: optional_argument_spec(slots[1], positional_none, keyword_none),
        laparams: optional_argument_spec(slots[2], positional_none, keyword_none),
        password: optional_argument_spec(slots[3], positional_none, keyword_none),
        strict_metadata: if slots[4] == ArgumentSource::Missing {
            FlagArgument::Default(false)
        } else {
            FlagArgument::Given(slots[4])
        },
        unicode_norm: optional_argument_spec(slots[5], positional_none, keyword_none),
        repair: if slots[6] == ArgumentSource::Missing {
            FlagArgument::Default(false)
        } else {
            FlagArgument::Given(slots[6])
        },
        gs_path: optional_argument_spec(slots[7], positional_none, keyword_none),
        repair_setting: if slots[8] == ArgumentSource::Missing {
            TextArgument::Default("default")
        } else {
            TextArgument::Given(slots[8])
        },
        raise_unicode_errors: if slots[9] == ArgumentSource::Missing {
            OptionalArgument::Absent
        } else {
            OptionalArgument::Given(slots[9])
        },
    }
}

fn optional_argument(source: ArgumentSource, positional_none: &Vec<bool>, keyword_none: &Vec<bool>) -> (res:
    OptionalArgument)
    requires
        source matches ArgumentSource::Positional(p) ==> p < positional_none.len(),
        source matches ArgumentSource::Keyword(k) ==> k < keyword_none.len(),
    ensures
        res == optional_argument_spec(source, positional_none@, keyword_none@),
{
    match source {
        ArgumentSource::Missing => OptionalArgument::Absent,
        ArgumentSource::Positional(p) => if positional_none[p] {
            OptionalArgument::Absent
        } else {
            OptionalArgument::Given(source)
        },
        ArgumentSource::Keyword(k) => if keyword_none[k] {
            OptionalArgument::Absent
        } else {
            OptionalArgument::Given(source)
        },
    }
}

/// The `TypeError` text for too many positional arguments to `PDF.open()`.
pub open spec fn pdf_open_too_many_text(given: nat) -> Seq<char> {
    "PDF.open()"@ + " takes from 1 to "@ + decimal(10) + " positional arguments but "@ + decimal(given)
        + " were given"@
}

/// Bind and resolve the arguments of `PDF.open(path_or_fp, pages=None,
/// laparams=None, password=None, strict_metadata=False, unicode_norm=None,
/// repair=False, gs_path=None, repair_setting='default',
/// raise_unicode_errors=True)`. `positional_none[p]` tells whether positional
/// argument `p` is `None`; `keyword_names[k]` names keyword argument `k` and
/// `keyword_none[k]` tells whether its value is `None`. The result says where
/// each parameter's value comes from, with the defaults applied, or the
/// `TypeError` raised.
pub fn parse_pdf_open_args(
    positional_none: &Vec<bool>,
    keyword_names: &Vec<String>,
    keyword_none: &Vec<bool>,
) -> (res: Result<PdfOpenArgs, PythonError>)
    requires
        keyword_none.len() == keyword_names.len(),
    ensures
        match binding_outcome(
            "PDF.open()"@,
            pdf_open_parameter_names(),
            positional_none@.len(),
            keyword_names@.map_values(|k: String| k@),
            pdf_open_too_many_text(positional_none@.len()),
            true,
        ) {
            Err(text) => raises_type_error(res, text),
            Ok(slots) => res == Ok::<PdfOpenArgs, PythonError>(
                pdf_open_resolved(slots, positional_none@, keyword_none@),
            ),
        },
{
    let names: Vec<&str> = vec![
        "path_or_fp",
        "pages",
        "laparams",
        "password",
        "strict_metadata",
        "unicode_norm",
        "repair",
        "gs_path",
        "repair_setting",
        "raise_unicode_errors",
    ];
    assert(names@.map_values(|n: &str| n@) =~= pdf_open_parameter_names());
    let positional_count = positional_none.len();
    let ghost keys = keyword_names@.map_values(|k: String| k@);
    let too_many = positional_range_message("PDF.open()", 10, positional_count);
    match bind_call("PDF.open()", &names, positional_count, keyword_names, too_many, true) {
        Err(error) => Err(error),
        Ok(slots) => {
            proof {
                lemma_binding_assigns_by_name(
                    pdf_open_parameter_names(),
                    positional_count as nat,
                    keys,
                    keys.len() as int,
                );
                assert forall|p: int| 0 <= p < 10 implies (#[trigger] slots@[p] matches ArgumentSource::Positional(
                    q,
                ) ==> q < positional_none.len()) by {
                    assert(slot_positional_in_place(slots@, p, positional_count as nat));
                }
                assert forall|p: int| 0 <= p < 10 implies (#[trigger] slots@[p] matches ArgumentSource::Keyword(
                    k,
                ) ==> k < keyword_none.len()) by {
                    assert(slot_named_by_keyword(
                        pdf_open_parameter_names(),
                        keys,
                        slots@,
                        p,
                        keys.len() as int,
                    ));
                }
            }
            Ok(
                PdfOpenArgs {
                    path_or_fp: slots[0],
                    pages: optional_argument(slots[1], positional_none, keyword_none),
                    laparams: optional_argument(slots[2], positional_none, keyword_none),
                    password: optional_argument(slots[3], positional_none, keyword_none),
                    strict_metadata: if slots[4] == ArgumentSource::Missing {
                        FlagArgument::Default(false)
                    } else {
                        FlagArgument::Given(slots[4])
                    },
                    unicode_norm: optional_argument(slots[5], positional_none, keyword_none),
                    repair: if slots[6] == ArgumentSource::Missing {
                        FlagArgument::Default(false)
                    } else {
                        FlagArgument::Given(slots[6])
                    },
                    gs_path: optional_argument(slots[7], positional_none, keyword_none),
                    repair_setting: if slots[8] == ArgumentSource::Missing {
                        TextArgument::Default("default")
                    } else {
                        TextArgument::Given(slots[8])
                    },
                    raise_unicode_errors: if slots[9] == ArgumentSource::Missing {
                        OptionalArgument::Absent
                    } else {
                        OptionalArgument::Given(slots[9])
                    },
                },
            )
        },
    }
}

/// Bind the arguments of `Container.to_json(stream=None, object_types=None,
/// include_attrs=None, exclude_attrs=None, precision=None, indent=None)`;
/// Python counts `self` among the positional arguments it reports.
pub fn parse_container_to_json_args(positional_count: usize, keyword_names: &Vec<String>) -> (res:
    Result<Vec<ArgumentSource>, PythonError>)
    requires
        positional_count < usize::MAX,
    ensures
        call_binding_holds(
            res,
            "Container.to_json()"@,
            to_json_parameter_names(),
            positional_count as nat,
            keyword_names@.map_values(|k: String| k@),
            "Container.to_json()"@ + " takes from 1 to "@ + decimal(7) + " positional arguments but "@
                + decimal((positional_count + 1) as nat) + " were given"@,
            false,
        ),
{
    let names: Vec<&str> = vec![
        "stream",
        "object_types",
        "include_attrs",
        "exclude_attrs",
        "precision",
        "indent",
    ];
    assert(names@.map_values(|n: &str| n@) =~= to_json_parameter_names());
    let too_many = positional_range_message("Container.to_json()", 7, positional_count + 1);
    bind_call("Container.to_json()", &names, positional_count, keyword_names, too_many, false)
}

/// Bind the arguments of `Container.to_csv(stream=None, object_types=None,
/// precision=None, include_attrs=None, exclude_attrs=None)`; Python counts
/// `self` among the positional arguments it reports.
pub fn parse_container_to_csv_args(positional_count: usize, keyword_names: &Vec<String>) -> (res:
    Result<Vec<ArgumentSource>, PythonError>)
    requires
        positional_count < usize::MAX,
    ensures
        call_binding_holds(
            res,
            "Container.to_csv()"@,
            to_csv_parameter_names(),
            positional_count as nat,
            keyword_names@.map_values(|k: String| k@),
            "Container.to_csv()"@ + " takes from 1 to "@ + decimal(6) + " positional arguments but "@
                + decimal((positional_count + 1) as nat) + " were given"@,
            false,
        ),
{
    let names: Vec<&str> = vec![
        "stream",
        "object_types",
        "precision",
        "include_attrs",
        "exclude_attrs",
    ];
    assert(names@.map_values(|n: &str| n@) =~= to_csv_parameter_names());
    let too_many = positional_range_message("Container.to_csv()", 6, positional_count + 1);
    bind_call("Container.to_csv()", &names, positional_count, keyword_names, too_many, false)
}

/// Bind the arguments of `Page.point2coord(pt)`; Python counts `self` among
/// the positional arguments it reports.
pub fn parse_point2coord_arg(positional_count: usize, keyword_names: &Vec<String>) -> (res: Result<
    Vec<ArgumentSource>,
    PythonError,
>)
    requires
        positional_count < usize::MAX,
    ensures
        call_binding_holds(
            res,
            "Page.point2coord()"@,
            seq!["pt"@],
            positional_count as nat,
            keyword_names@.map_values(|k: String| k@),
            "Page.point2coord() takes 2 positional arguments but "@ + decimal(
                (positional_count + 1) as nat,
            ) + " were given"@,
            true,
        ),
{
    let names: Vec<&str> = vec!["pt"];
    assert(names@.map_values(|n: &str| n@) =~= seq!["pt"@]);
    let mut too_many = String::from_str("Page.point2coord() takes 2 positional arguments but ");
    let given = usize_to_decimal(positional_count + 1);
    too_many.append(given.as_str());
    too_many.append(" were given");
    bind_call("Page.point2coord()", &names, positional_count, keyword_names, too_many, true)
}

/// The layout parameters accepted from a `laparams` mapping.
pub open spec fn laparams_keys() -> Seq<Seq<char>> {
    seq![
        "line_overlap"@,
        "char_margin"@,
        "line_margin"@,
        "word_margin"@,
        "boxes_flow"@,
        "detect_vertical"@,
        "all_texts"@,
    ]
}

/// What a `laparams` value is, as far as the checks look at it: only the
/// value of `boxes_flow` is checked, and it must be `None` or a number
/// between -1 and +1.
#[derive(Debug, Clone, Copy, PartialEq, Eq, Structural)]
pub enum LaparamValue {
    /// `None`.
    NoneValue,
    /// A number in `[-1, 1]`.
    NumberInRange,
    /// A number outside `[-1, 1]`.
    NumberOutOfRange,
    /// Any other value (not convertible to a float).
    Other,
}

/// The message of both errors raised for a bad `boxes_flow` value.
pub open spec fn boxes_flow_message() -> Seq<char> {
    "LAParam boxes_flow should be None, or a number between -1 and +1"@
}

/// Whether the mapping entry `key: value` is rejected.
pub open spec fn laparams_entry_rejected(key: Seq<char>, value: LaparamValue) -> bool {
    ||| !laparams_keys().contains(key)
    ||| (key == "boxes_flow"@ && (value is NumberOutOfRange || value is Other))
}

/// The position of the first entry (in mapping order) that is rejected.
pub open spec fn first_rejected_entry(keys: Seq<Seq<char>>, values: Seq<LaparamValue>) -> Option<int>
    decreases keys.len(),
{
    if keys.len() == 0 {
        None
    } else {
        match first_rejected_entry(keys.drop_last(), values) {
            Some(j) => Some(j),
            None => if laparams_entry_rejected(keys.last(), values[keys.len() - 1]) {
                Some(keys.len() - 1)
            } else {
                None
            },
        }
    }
}

/// The exception raised for the rejected entry `key: value`.
pub open spec fn laparams_entry_error<T>(res: Result<T, PythonError>, key: Seq<char>, value: LaparamValue) -> bool {
    if !laparams_keys().contains(key) {
        raises_type_error(res, "LAParams.__init__()"@ + " got an unexpected keyword argument '"@ + key + "'"@)
    } else if value is Other {
        raises_type_error(res, boxes_flow_message())
    } else {
        raises(res, PyExceptionClass::ValueError, boxes_flow_message())
    }
}

/// Check the entries of a `laparams` mapping in order: `keys[i]` is the key
/// of entry `i` and `values[i]` what its value is. The first entry whose key
/// is not a layout parameter is rejected with the `TypeError` Python's
/// `LAParams` raises; the first `boxes_flow` entry whose value is neither
/// `None` nor a number raises `TypeError`, one whose number lies outside
/// `[-1, 1]` raises `ValueError`, both with the same message.
pub fn check_laparams_keys(keys: &Vec<String>, values: &Vec<LaparamValue>) -> (res: Result<(), PythonError>)
    requires
        values.len() == keys.len(),
    ensures
        match first_rejected_entry(keys@.map_values(|k: String| k@), values@) {
            None => res is Ok,
            Some(j) => laparams_entry_error(res, keys@[j]@, values@[j]),
        },
{
    let supported: Vec<&str> = vec![
        "line_overlap",
        "char_margin",
        "line_margin",
        "word_margin",
        "boxes_flow",
        "detect_vertical",
        "all_texts",
    ];
    assert(supported@.map_values(|n: &str| n@) =~= laparams_keys());
    let ghost ks = keys@.map_values(|k: String| k@);
    let mut i: usize = 0;
    assert(ks.take(0) =~= Seq::<Seq<char>>::empty());
    while i < keys.len()
        invariant
            i <= keys.len(),
            values.len() == keys.len(),
            ks == keys@.map_values(|k: String| k@),
            supported@.map_values(|n: &str| n@) == laparams_keys(),
            first_rejected_entry(ks.take(i as int), values@) is None,
        decreases keys.len() - i,
    {
        assert(ks.take(i + 1).drop_last() =~= ks.take(i as int));
        assert(ks.take(i + 1).last() == ks[i as int]);
        let found = find_parameter(&supported, keys[i].as_str());
        proof {
            lemma_first_index_of_bounds(laparams_keys(), ks[i as int]);
            if found is None {
                assert(!laparams_keys().contains(ks[i as int]));
            } else {
                let j = first_index_of(laparams_keys(), ks[i as int]).unwrap();
                assert(laparams_keys()[j] == ks[i as int]);
            }
        }
        if found.is_none() {
            proof {
                assert(first_rejected_entry(ks.take(i + 1), values@) == Some(i as int));
                lemma_rejected_entry_persists(ks, values@, (i + 1) as int);
            }
            return Err(type_error(unexpected_keyword_message("LAParams.__init__()", keys[i].as_str())));
        }
        if str_equals(keys[i].as_str(), "boxes_flow") {
            match values[i] {
                LaparamValue::Other => {
                    proof {
                        assert(first_rejected_entry(ks.take(i + 1), values@) == Some(i as int));
                        lemma_rejected_entry_persists(ks, values@, (i + 1) as int);
                    }
                    return Err(type_error(String::from_str(
                        "LAParam boxes_flow should be None, or a number between -1 and +1",
                    )));
                },
                LaparamValue::NumberOutOfRange => {
                    proof {
                        assert(first_rejected_entry(ks.take(i + 1), values@) == Some(i as int));
                        lemma_rejected_entry_persists(ks, values@, (i + 1) as int);
                    }
                    return Err(PythonError {
                        class: PyExceptionClass::ValueError,
                        message: Some(String::from_str(
                            "LAParam boxes_flow should be None, or a number between -1 and +1",
                        )),
                    });
                },
                _ => {},
            }
        }
        assert(first_rejected_entry(ks.take(i + 1), values@) is None);
        i = i + 1;
    }
    assert(ks.take(i as int) =~= ks);
    Ok(())
}

proof fn lemma_rejected_entry_persists(keys: Seq<Seq<char>>, values: Seq<LaparamValue>, k: int)
    requires
        0 <= k <= keys.len(),
        first_rejected_entry(keys.take(k), values) is Some,
    ensures
        first_rejected_entry(keys, values) == first_rejected_entry(keys.take(k), values),
    decreases keys.len() - k,
{
    if k < keys.len() {
        assert(keys.take(k + 1).drop_last() =~= keys.take(k));
        lemma_rejected_entry_persists(keys, values, k + 1);
    } else {
        assert(keys.take(k) =~= keys);
    }
}

} // verus!
