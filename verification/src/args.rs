//! The parser: a single left-to-right pass over the token stream, no
//! backtracking.
//!
//! Each token is classified as a long flag, a short flag, or a positional
//! candidate.  A matched flag with the unit constraint records `true` and
//! consumes nothing further; any other matched flag consumes exactly the
//! next token as its value.  A positional candidate resolves against the
//! constraint of the next unfilled positional slot.  The first failure
//! aborts the whole parse.

use vstd::prelude::*;
use vstd::string::StrSliceExecFns;
use vstd::string::StringExecFns;

use crate::text::str_eq;
use crate::variant::{spec_parse, Token, TokenModel, Variant, VariantFlag, VariantView};
use crate::{ArgumentError, ArgumentErrorKind, ErrorModel, FlagDefinition, FlagModel};

verus! {

/// The models of a sequence of tokens.
pub open spec fn token_models(tokens: Seq<Token>) -> Seq<TokenModel> {
    tokens.map_values(|t: Token| t@)
}

/// The models of a sequence of flag definitions.
pub open spec fn flag_models(defs: Seq<FlagDefinition>) -> Seq<FlagModel> {
    defs.map_values(|d: FlagDefinition| d@)
}

/// Index of the first definition with the given name, scanning from `j`.
pub open spec fn find_by_name_from(defs: Seq<FlagModel>, name: Seq<char>, j: int) -> Option<int>
    decreases defs.len() - j,
{
    if j < 0 || j >= defs.len() {
        None
    } else if defs[j].name == name {
        Some(j)
    } else {
        find_by_name_from(defs, name, j + 1)
    }
}

/// Index of the first definition with the given abbreviation, scanning
/// from `j`.
pub open spec fn find_by_abbr_from(defs: Seq<FlagModel>, abbr: char, j: int) -> Option<int>
    decreases defs.len() - j,
{
    if j < 0 || j >= defs.len() {
        None
    } else if defs[j].abbreviation == Some(abbr) {
        Some(j)
    } else {
        find_by_abbr_from(defs, abbr, j + 1)
    }
}

/// How a single token classifies against the declared flags: a matched
/// definition's index, no match at all (a positional candidate), or a
/// failure for a flag-shaped token that matches no definition.
pub open spec fn spec_match_def(defs: Seq<FlagModel>, text: Seq<char>) -> Result<
    Option<int>,
    ErrorModel,
> {
    if text.len() >= 2 && text[0] == '-' && text[1] == '-' {
        let name = text.skip(2);
        match find_by_name_from(defs, name, 0) {
            Some(j) => Ok(Some(j)),
            None => Err(ErrorModel::UnknownFlag { name }),
        }
    } else if text.len() == 2 && text[0] == '-' {
        match find_by_abbr_from(defs, text[1], 0) {
            Some(j) => Ok(Some(j)),
            None => Err(ErrorModel::UnknownAbbreviation { abbreviation: text[1], token: text }),
        }
    } else {
        Ok(None)
    }
}

/// Determine whether the given token matches a flag definition.
///
/// A token starting with `--` must name a declared flag; a two-character
/// token starting with `-` must match a declared abbreviation; anything
/// else is a positional candidate and matches nothing.
pub fn match_flag_definition<'a>(flag_definitions: &'a Vec<FlagDefinition>, arg: &str) -> (r:
    Result<Option<&'a FlagDefinition>, ArgumentError>)
    ensures
        (match spec_match_def(flag_models(flag_definitions@), arg@) {
            Ok(None) => r matches Ok(None),
            Ok(Some(j)) => r matches Ok(Some(d)) && 0 <= j < flag_definitions@.len() && *d
                == flag_definitions@[j],
            Err(k) => r matches Err(e) && e@ == k,
        }),
{
    let ghost dms = flag_models(flag_definitions@);
    let n = arg.unicode_len();
    if n >= 2 && arg.get_char(0) == '-' && arg.get_char(1) == '-' {
        let input_name = arg.substring_char(2, n);
        proof {
            assert(input_name@ =~= arg@.skip(2));
        }
        let mut j: usize = 0;
        while j < flag_definitions.len()
            invariant
                j <= flag_definitions@.len(),
                dms == flag_models(flag_definitions@),
                n == arg@.len(),
                n >= 2,
                arg@[0] == '-',
                arg@[1] == '-',
                input_name@ == arg@.skip(2),
                find_by_name_from(dms, arg@.skip(2), 0) == find_by_name_from(
                    dms,
                    arg@.skip(2),
                    j as int,
                ),
            decreases flag_definitions@.len() - j,
        {
            if str_eq(flag_definitions[j].name.as_str(), input_name) {
                proof {
                    assert(dms[j as int] == flag_definitions@[j as int]@);
                    assert(find_by_name_from(dms, arg@.skip(2), j as int) == Some(j as int));
                }
                return Ok(Some(&flag_definitions[j]));
            }
            proof {
                assert(dms[j as int] == flag_definitions@[j as int]@);
            }
            j += 1;
        }
        Err(
            ArgumentError::new(
                ArgumentErrorKind::UnknownFlag { name: String::from_str(input_name) },
            ),
        )
    } else if n == 2 && arg.get_char(0) == '-' {
        let input_char = arg.get_char(1);
        let mut j: usize = 0;
        while j < flag_definitions.len()
            invariant
                j <= flag_definitions@.len(),
                dms == flag_models(flag_definitions@),
                n == 2,
                n == arg@.len(),
                arg@[0] == '-',
                arg@[1] != '-',
                input_char == arg@[1],
                find_by_abbr_from(dms, arg@[1], 0) == find_by_abbr_from(dms, arg@[1], j as int),
            decreases flag_definitions@.len() - j,
        {
            let matched = match flag_definitions[j].abbreviation {
                Some(a) => a == input_char,
                None => false,
            };
            if matched {
                proof {
                    assert(dms[j as int] == flag_definitions@[j as int]@);
                    assert(find_by_abbr_from(dms, arg@[1], j as int) == Some(j as int));
                }
                return Ok(Some(&flag_definitions[j]));
            }
            proof {
                assert(dms[j as int] == flag_definitions@[j as int]@);
            }
            j += 1;
        }
        Err(
            ArgumentError::new(
                ArgumentErrorKind::UnknownAbbreviation {
                    abbreviation: input_char,
                    token: String::from_str(arg),
                },
            ),
        )
    } else {
        Ok(None)
    }
}

#[derive(Debug)]
struct NamedEntry {
    name: String,
    value: Variant,
}

/// The mapping a list of recorded bindings denotes: later entries
/// overwrite earlier ones with the same name.
spec fn entries_map(entries: Seq<NamedEntry>) -> Map<Seq<char>, VariantView>
    decreases entries.len(),
{
    if entries.len() == 0 {
        Map::empty()
    } else {
        entries_map(entries.drop_last()).insert(
            entries.last().name@,
            entries.last().value@,
        )
    }
}

proof fn lemma_entries_map_push(entries: Seq<NamedEntry>, e: NamedEntry)
    ensures
        entries_map(entries.push(e)) == entries_map(entries).insert(e.name@, e.value@),
{
    assert(entries.push(e).drop_last() =~= entries);
    assert(entries.push(e).last() == e);
}

proof fn lemma_entries_map_lookup(entries: Seq<NamedEntry>, name: Seq<char>, i: int)
    requires
        0 <= i < entries.len(),
        entries[i].name@ == name,
        forall|k: int| i < k < entries.len() ==> entries[k].name@ != name,
    ensures
        entries_map(entries).contains_key(name),
        entries_map(entries)[name] == entries[i].value@,
    decreases entries.len(),
{
    if i == entries.len() - 1 {
    } else {
        assert(entries.drop_last()[i] == entries[i]);
        assert forall|k: int| i < k < entries.drop_last().len() implies entries.drop_last()[k].name@
            != name by {
            assert(entries.drop_last()[k] == entries[k]);
        }
        lemma_entries_map_lookup(entries.drop_last(), name, i);
    }
}

proof fn lemma_entries_map_absent(entries: Seq<NamedEntry>, name: Seq<char>)
    requires
        forall|k: int| 0 <= k < entries.len() ==> entries[k].name@ != name,
    ensures
        !entries_map(entries).contains_key(name),
    decreases entries.len(),
{
    if entries.len() > 0 {
        assert forall|k: int| 0 <= k < entries.drop_last().len() implies entries.drop_last()[k].name@
            != name by {
            assert(entries.drop_last()[k] == entries[k]);
        }
        lemma_entries_map_absent(entries.drop_last(), name);
    }
}

/// Contains the name of the binary, the positional values in order, and
/// the mapping from flag name to value.  Built exactly once by a parse;
/// immutable thereafter; read through the accessors.
#[derive(Debug)]
pub struct Args {
    binary: String,
    positional: Vec<Variant>,
    named: Vec<NamedEntry>,
}

/// Mathematical model of an [`Args`].
pub ghost struct ArgsModel {
    pub binary: Seq<char>,
    pub positional: Seq<VariantView>,
    pub named: Map<Seq<char>, VariantView>,
}

impl View for Args {
    type V = ArgsModel;

    closed spec fn view(&self) -> ArgsModel {
        ArgsModel {
            binary: self.binary@,
            positional: self.positional@.map_values(|v: Variant| v@),
            named: entries_map(self.named@),
        }
    }
}

/// What one pass over `tokens[i..]` yields, given the positional values
/// and named bindings accumulated so far: the final positional sequence
/// and named mapping, or the first failure.
pub open spec fn spec_parse_stream(
    tokens: Seq<TokenModel>,
    i: int,
    positional_types: Seq<VariantFlag>,
    defs: Seq<FlagModel>,
    acc_pos: Seq<VariantView>,
    acc_named: Map<Seq<char>, VariantView>,
) -> Result<(Seq<VariantView>, Map<Seq<char>, VariantView>), ErrorModel>
    decreases tokens.len() - i,
{
    if i < 0 || i >= tokens.len() {
        if acc_pos.len() == positional_types.len() {
            Ok((acc_pos, acc_named))
        } else {
            Err(ErrorModel::TooFewPositionals)
        }
    } else {
        match spec_match_def(defs, tokens[i].text) {
            Err(e) => Err(e),
            Ok(Some(j)) => {
                let def = defs[j];
                if def.allowed_type.spec_is_unit() {
                    spec_parse_stream(
                        tokens,
                        i + 1,
                        positional_types,
                        defs,
                        acc_pos,
                        acc_named.insert(def.name, VariantView::Bool { value: true }),
                    )
                } else if i + 1 >= tokens.len() {
                    Err(ErrorModel::MissingFlagValue { name: def.name })
                } else {
                    match spec_parse(def.allowed_type, tokens[i + 1]) {
                        None => Err(
                            ErrorModel::InvalidFlagValue {
                                name: def.name,
                                value: tokens[i + 1].text,
                            },
                        ),
                        Some(v) => spec_parse_stream(
                            tokens,
                            i + 2,
                            positional_types,
                            defs,
                            acc_pos,
                            acc_named.insert(def.name, v),
                        ),
                    }
                }
            },
            Ok(None) => {
                let k = acc_pos.len() as int;
                if k >= positional_types.len() {
                    Err(ErrorModel::TooManyPositionals)
                } else {
                    match spec_parse(positional_types[k], tokens[i]) {
                        None => Err(
                            ErrorModel::InvalidPositionalValue {
                                index: k,
                                allowed: positional_types[k],
                            },
                        ),
                        Some(v) => spec_parse_stream(
                            tokens,
                            i + 1,
                            positional_types,
                            defs,
                            acc_pos.push(v),
                            acc_named,
                        ),
                    }
                }
            },
        }
    }
}

/// What a whole parse yields: the first token is the program name, the
/// rest is one pass with nothing yet accumulated.
pub open spec fn spec_args(
    tokens: Seq<TokenModel>,
    positional_types: Seq<VariantFlag>,
    defs: Seq<FlagModel>,
) -> Result<ArgsModel, ErrorModel> {
    if tokens.len() == 0 {
        Err(ErrorModel::EmptyArgumentList)
    } else {
        match spec_parse_stream(
            tokens,
            1,
            positional_types,
            defs,
            Seq::empty(),
            Map::empty(),
        ) {
            Ok(pn) => Ok(ArgsModel { binary: tokens[0].text, positional: pn.0, named: pn.1 }),
            Err(e) => Err(e),
        }
    }
}

proof fn lemma_stream_arity(
    tokens: Seq<TokenModel>,
    i: int,
    positional_types: Seq<VariantFlag>,
    defs: Seq<FlagModel>,
    acc_pos: Seq<VariantView>,
    acc_named: Map<Seq<char>, VariantView>,
)
    ensures
        spec_parse_stream(tokens, i, positional_types, defs, acc_pos, acc_named) matches Ok(p)
            ==> p.0.len() == positional_types.len(),
    decreases tokens.len() - i,
{
    if i < 0 || i >= tokens.len() {
    } else {
        match spec_match_def(defs, tokens[i].text) {
            Err(_) => {},
            Ok(Some(j)) => {
                let def = defs[j];
                if def.allowed_type.spec_is_unit() {
                    lemma_stream_arity(
                        tokens,
                        i + 1,
                        positional_types,
                        defs,
                        acc_pos,
                        acc_named.insert(def.name, VariantView::Bool { value: true }),
                    );
                } else if i + 1 >= tokens.len() {
                } else {
                    match spec_parse(def.allowed_type, tokens[i + 1]) {
                        None => {},
                        Some(v) => {
                            lemma_stream_arity(
                                tokens,
                                i + 2,
                                positional_types,
                                defs,
                                acc_pos,
                                acc_named.insert(def.name, v),
                            );
                        },
                    }
                }
            },
            Ok(None) => {
                if acc_pos.len() < positional_types.len() {
                    match spec_parse(positional_types[acc_pos.len() as int], tokens[i]) {
                        None => {},
                        Some(v) => {
                            lemma_stream_arity(
                                tokens,
                                i + 1,
                                positional_types,
                                defs,
                                acc_pos.push(v),
                                acc_named,
                            );
                        },
                    }
                }
            },
        }
    }
}

/// Arity law: every successful parse yields exactly as many positional
/// values as there are declared positional constraints.
pub proof fn lemma_parse_arity(
    tokens: Seq<TokenModel>,
    positional_types: Seq<VariantFlag>,
    defs: Seq<FlagModel>,
)
    ensures
        spec_args(tokens, positional_types, defs) matches Ok(m) ==> m.positional.len()
            == positional_types.len(),
{
    if tokens.len() > 0 {
        lemma_stream_arity(
            tokens,
            1,
            positional_types,
            defs,
            Seq::empty(),
            Map::empty(),
        );
    }
}

/// Determinism law: the outcome of a parse is a function of the token
/// stream and the schema alone, so identical inputs yield identical
/// results, however often the parse is repeated.
pub proof fn lemma_parse_deterministic(
    tokens1: Seq<TokenModel>,
    tokens2: Seq<TokenModel>,
    positional_types1: Seq<VariantFlag>,
    positional_types2: Seq<VariantFlag>,
    defs1: Seq<FlagModel>,
    defs2: Seq<FlagModel>,
)
    requires
        tokens1 == tokens2,
        positional_types1 == positional_types2,
        defs1 == defs2,
    ensures
        spec_args(tokens1, positional_types1, defs1) == spec_args(
            tokens2,
            positional_types2,
            defs2,
        ),
{
}

/// The subsequence of `tokens[i..]` that the single pass classifies as
/// positional candidates: matched flags are skipped together with the
/// value token a non-unit flag consumes.
pub open spec fn positional_tokens(tokens: Seq<TokenModel>, i: int, defs: Seq<FlagModel>) -> Seq<
    TokenModel,
>
    decreases tokens.len() - i,
{
    if i < 0 || i >= tokens.len() {
        Seq::empty()
    } else {
        match spec_match_def(defs, tokens[i].text) {
            Err(_) => Seq::empty(),
            Ok(Some(j)) => {
                if defs[j].allowed_type.spec_is_unit() {
                    positional_tokens(tokens, i + 1, defs)
                } else if i + 1 < tokens.len() {
                    positional_tokens(tokens, i + 2, defs)
                } else {
                    Seq::empty()
                }
            },
            Ok(None) => seq![tokens[i]] + positional_tokens(tokens, i + 1, defs),
        }
    }
}

/// The final positional sequence extends the accumulated one, and each
/// later slot holds exactly what its constraint resolves the matching
/// positional token to.
pub open spec fn stream_positionals_ok(
    p: (Seq<VariantView>, Map<Seq<char>, VariantView>),
    acc_pos: Seq<VariantView>,
    ps: Seq<TokenModel>,
    positional_types: Seq<VariantFlag>,
) -> bool {
    &&& p.0.len() == acc_pos.len() + ps.len()
    &&& (forall|k: int| 0 <= k < acc_pos.len() ==> p.0[k] == acc_pos[k])
    &&& (forall|k: int|
        0 <= k < ps.len() ==> Some(p.0[acc_pos.len() + k]) == spec_parse(
            positional_types[acc_pos.len() + k],
            #[trigger] ps[k],
        ))
}

proof fn lemma_stream_positionals(
    tokens: Seq<TokenModel>,
    i: int,
    positional_types: Seq<VariantFlag>,
    defs: Seq<FlagModel>,
    acc_pos: Seq<VariantView>,
    acc_named: Map<Seq<char>, VariantView>,
)
    ensures
        spec_parse_stream(tokens, i, positional_types, defs, acc_pos, acc_named) matches Ok(p)
            ==> stream_positionals_ok(
            p,
            acc_pos,
            positional_tokens(tokens, i, defs),
            positional_types,
        ),
    decreases tokens.len() - i,
{
    if i < 0 || i >= tokens.len() {
    } else {
        match spec_match_def(defs, tokens[i].text) {
            Err(_) => {},
            Ok(Some(j)) => {
                let def = defs[j];
                if def.allowed_type.spec_is_unit() {
                    lemma_stream_positionals(
                        tokens,
                        i + 1,
                        positional_types,
                        defs,
                        acc_pos,
                        acc_named.insert(def.name, VariantView::Bool { value: true }),
                    );
                    assert(positional_tokens(tokens, i, defs) == positional_tokens(
                        tokens,
                        i + 1,
                        defs,
                    ));
                    assert(spec_parse_stream(tokens, i, positional_types, defs, acc_pos, acc_named)
                        == spec_parse_stream(
                        tokens,
                        i + 1,
                        positional_types,
                        defs,
                        acc_pos,
                        acc_named.insert(def.name, VariantView::Bool { value: true }),
                    ));
                } else if i + 1 >= tokens.len() {
                } else {
                    match spec_parse(def.allowed_type, tokens[i + 1]) {
                        None => {},
                        Some(v) => {
                            lemma_stream_positionals(
                                tokens,
                                i + 2,
                                positional_types,
                                defs,
                                acc_pos,
                                acc_named.insert(def.name, v),
                            );
                            assert(positional_tokens(tokens, i, defs) == positional_tokens(
                                tokens,
                                i + 2,
                                defs,
                            ));
                            assert(spec_parse_stream(
                                tokens,
                                i,
                                positional_types,
                                defs,
                                acc_pos,
                                acc_named,
                            ) == spec_parse_stream(
                                tokens,
                                i + 2,
                                positional_types,
                                defs,
                                acc_pos,
                                acc_named.insert(def.name, v),
                            ));
                        },
                    }
                }
            },
            Ok(None) => {
                if acc_pos.len() < positional_types.len() {
                    match spec_parse(positional_types[acc_pos.len() as int], tokens[i]) {
                        None => {},
                        Some(v) => {
                            lemma_stream_positionals(
                                tokens,
                                i + 1,
                                positional_types,
                                defs,
                                acc_pos.push(v),
                                acc_named,
                            );
                            let ps = positional_tokens(tokens, i, defs);
                            let rest = positional_tokens(tokens, i + 1, defs);
                            assert(ps =~= seq![tokens[i]] + rest);
                            assert(ps[0] == tokens[i]);
                            assert(spec_parse_stream(
                                tokens,
                                i,
                                positional_types,
                                defs,
                                acc_pos,
                                acc_named,
                            ) == spec_parse_stream(
                                tokens,
                                i + 1,
                                positional_types,
                                defs,
                                acc_pos.push(v),
                                acc_named,
                            ));
                            match spec_parse_stream(
                                tokens,
                                i,
                                positional_types,
                                defs,
                                acc_pos,
                                acc_named,
                            ) {
                                Ok(p) => {
                                    assert(stream_positionals_ok(
                                        p,
                                        acc_pos.push(v),
                                        rest,
                                        positional_types,
                                    ));
                                    assert forall|k: int| 0 <= k < acc_pos.len() implies p.0[k]
                                        == acc_pos[k] by {
                                        assert(p.0[k] == acc_pos.push(v)[k]);
                                    }
                                    assert forall|k: int| 0 <= k < ps.len() implies Some(
                                        p.0[acc_pos.len() + k],
                                    ) == spec_parse(
                                        positional_types[acc_pos.len() + k],
                                        #[trigger] ps[k],
                                    ) by {
                                        if k == 0 {
                                            assert(p.0[acc_pos.len() as int] == acc_pos.push(
                                                v,
                                            )[acc_pos.len() as int]);
                                            assert(p.0[acc_pos.len() as int] == v);
                                        } else {
                                            assert(ps[k] == rest[k - 1]);
                                            assert(Some(p.0[acc_pos.push(v).len() + (k - 1)])
                                                == spec_parse(
                                                positional_types[acc_pos.push(v).len() + (k - 1)],
                                                rest[k - 1],
                                            ));
                                            assert(acc_pos.push(v).len() + (k - 1) == acc_pos.len()
                                                + k);
                                        }
                                    }
                                },
                                Err(_) => {},
                            }
                        },
                    }
                }
            },
        }
    }
}

/// Order-invariance law: two streams whose single passes classify the same
/// tokens, in the same order, as positional — flag tokens permuted freely
/// among them — bind each positional slot to the same constraint and
/// resolve it to the same value whenever both parses succeed.
pub proof fn lemma_positional_order_invariance(
    tokens1: Seq<TokenModel>,
    tokens2: Seq<TokenModel>,
    positional_types: Seq<VariantFlag>,
    defs: Seq<FlagModel>,
)
    requires
        tokens1.len() > 0,
        tokens2.len() > 0,
        positional_tokens(tokens1, 1, defs) == positional_tokens(tokens2, 1, defs),
        spec_args(tokens1, positional_types, defs) is Ok,
        spec_args(tokens2, positional_types, defs) is Ok,
    ensures
        (spec_args(tokens1, positional_types, defs)->Ok_0).positional == (spec_args(
            tokens2,
            positional_types,
            defs,
        )->Ok_0).positional,
{
    lemma_stream_positionals(
        tokens1,
        1,
        positional_types,
        defs,
        Seq::empty(),
        Map::empty(),
    );
    lemma_stream_positionals(
        tokens2,
        1,
        positional_types,
        defs,
        Seq::empty(),
        Map::empty(),
    );
    let pos1 = (spec_args(tokens1, positional_types, defs)->Ok_0).positional;
    let pos2 = (spec_args(tokens2, positional_types, defs)->Ok_0).positional;
    let ps = positional_tokens(tokens1, 1, defs);
    assert forall|k: int| 0 <= k < ps.len() implies pos1[k] == pos2[k] by {
        assert(Some(pos1[k]) == spec_parse(positional_types[k], ps[k]));
        assert(Some(pos2[k]) == spec_parse(positional_types[k], ps[k]));
    }
    assert(pos1 =~= pos2);
}

/// The flag bindings the single pass records, in stream order: each
/// matched flag's name with the value recorded for it.
pub open spec fn flag_bindings(tokens: Seq<TokenModel>, i: int, defs: Seq<FlagModel>) -> Seq<
    (Seq<char>, VariantView),
>
    decreases tokens.len() - i,
{
    if i < 0 || i >= tokens.len() {
        Seq::empty()
    } else {
        match spec_match_def(defs, tokens[i].text) {
            Err(_) => Seq::empty(),
            Ok(Some(j)) => {
                if defs[j].allowed_type.spec_is_unit() {
                    seq![(defs[j].name, VariantView::Bool { value: true })] + flag_bindings(
                        tokens,
                        i + 1,
                        defs,
                    )
                } else if i + 1 < tokens.len() {
                    match spec_parse(defs[j].allowed_type, tokens[i + 1]) {
                        Some(v) => seq![(defs[j].name, v)] + flag_bindings(tokens, i + 2, defs),
                        None => Seq::empty(),
                    }
                } else {
                    Seq::empty()
                }
            },
            Ok(None) => flag_bindings(tokens, i + 1, defs),
        }
    }
}

/// Bindings applied to a mapping in order: each one overwrites its name.
pub open spec fn insert_all(
    m: Map<Seq<char>, VariantView>,
    bs: Seq<(Seq<char>, VariantView)>,
) -> Map<Seq<char>, VariantView>
    decreases bs.len(),
{
    if bs.len() == 0 {
        m
    } else {
        insert_all(m.insert(bs[0].0, bs[0].1), bs.drop_first())
    }
}

/// The value of the last binding with the given name, if there is one.
pub open spec fn last_binding(bs: Seq<(Seq<char>, VariantView)>, name: Seq<char>) -> Option<
    VariantView,
>
    decreases bs.len(),
{
    if bs.len() == 0 {
        None
    } else {
        match last_binding(bs.drop_first(), name) {
            Some(v) => Some(v),
            None => {
                if bs[0].0 == name {
                    Some(bs[0].1)
                } else {
                    None
                }
            },
        }
    }
}

proof fn lemma_insert_all_get(
    m: Map<Seq<char>, VariantView>,
    bs: Seq<(Seq<char>, VariantView)>,
    name: Seq<char>,
)
    ensures
        (match last_binding(bs, name) {
            Some(v) => insert_all(m, bs).contains_key(name) && insert_all(m, bs)[name] == v,
            None => insert_all(m, bs).contains_key(name) == m.contains_key(name) && (
            m.contains_key(name) ==> insert_all(m, bs)[name] == m[name]),
        }),
    decreases bs.len(),
{
    if bs.len() > 0 {
        lemma_insert_all_get(m.insert(bs[0].0, bs[0].1), bs.drop_first(), name);
    }
}

proof fn lemma_stream_named(
    tokens: Seq<TokenModel>,
    i: int,
    positional_types: Seq<VariantFlag>,
    defs: Seq<FlagModel>,
    acc_pos: Seq<VariantView>,
    acc_named: Map<Seq<char>, VariantView>,
)
    ensures
        spec_parse_stream(tokens, i, positional_types, defs, acc_pos, acc_named) matches Ok(p)
            ==> p.1 == insert_all(acc_named, flag_bindings(tokens, i, defs)),
    decreases tokens.len() - i,
{
    if i < 0 || i >= tokens.len() {
    } else {
        match spec_match_def(defs, tokens[i].text) {
            Err(_) => {},
            Ok(Some(j)) => {
                let def = defs[j];
                if def.allowed_type.spec_is_unit() {
                    let b = (def.name, VariantView::Bool { value: true });
                    let rest = flag_bindings(tokens, i + 1, defs);
                    assert((seq![b] + rest).drop_first() =~= rest);
                    assert((seq![b] + rest)[0] == b);
                    lemma_stream_named(
                        tokens,
                        i + 1,
                        positional_types,
                        defs,
                        acc_pos,
                        acc_named.insert(def.name, VariantView::Bool { value: true }),
                    );
                } else if i + 1 >= tokens.len() {
                } else {
                    match spec_parse(def.allowed_type, tokens[i + 1]) {
                        None => {},
                        Some(v) => {
                            let b = (def.name, v);
                            let rest = flag_bindings(tokens, i + 2, defs);
                            assert((seq![b] + rest).drop_first() =~= rest);
                            assert((seq![b] + rest)[0] == b);
                            lemma_stream_named(
                                tokens,
                                i + 2,
                                positional_types,
                                defs,
                                acc_pos,
                                acc_named.insert(def.name, v),
                            );
                        },
                    }
                }
            },
            Ok(None) => {
                if acc_pos.len() < positional_types.len() {
                    match spec_parse(positional_types[acc_pos.len() as int], tokens[i]) {
                        None => {},
                        Some(v) => {
                            lemma_stream_named(
                                tokens,
                                i + 1,
                                positional_types,
                                defs,
                                acc_pos.push(v),
                                acc_named,
                            );
                        },
                    }
                }
            },
        }
    }
}

/// Last-write-wins law: on a successful parse, the value recorded under a
/// flag's name is the value of the last binding of that name in the
/// stream; a name never bound is absent from the result.
pub proof fn lemma_last_write_wins(
    tokens: Seq<TokenModel>,
    positional_types: Seq<VariantFlag>,
    defs: Seq<FlagModel>,
    name: Seq<char>,
)
    requires
        tokens.len() > 0,
        spec_args(tokens, positional_types, defs) is Ok,
    ensures
        (match last_binding(flag_bindings(tokens, 1, defs), name) {
            Some(v) => (spec_args(tokens, positional_types, defs)->Ok_0).named.contains_key(name)
                && (spec_args(tokens, positional_types, defs)->Ok_0).named[name] == v,
            None => !(spec_args(tokens, positional_types, defs)->Ok_0).named.contains_key(name),
        }),
{
    lemma_stream_named(
        tokens,
        1,
        positional_types,
        defs,
        Seq::empty(),
        Map::empty(),
    );
    lemma_insert_all_get(Map::empty(), flag_bindings(tokens, 1, defs), name);
}

impl Args {
    /// Parse a token stream against the declared schema.
    ///
    /// `tokens` is the raw argument sequence; its first element is the
    /// program name.  `positional_types` lists the constraints of the
    /// required positional arguments, in order.  `flag_definitions` lists
    /// the optional named arguments.  The result is exactly what
    /// [`spec_args`] says it is; in particular a successful parse holds
    /// exactly as many positional values as there are positional
    /// constraints.
    pub fn from_tokens(
        tokens: &Vec<Token>,
        positional_types: &Vec<VariantFlag>,
        flag_definitions: &Vec<FlagDefinition>,
    ) -> (r: Result<Args, ArgumentError>)
        ensures
            (match r {
                Ok(args) => spec_args(
                    token_models(tokens@),
                    positional_types@,
                    flag_models(flag_definitions@),
                ) matches Ok(m) && args@ == m,
                Err(e) => spec_args(
                    token_models(tokens@),
                    positional_types@,
                    flag_models(flag_definitions@),
                ) matches Err(k) && e@ == k,
            }),
            r matches Ok(args) ==> args@.positional.len() == positional_types@.len(),
    {
        let ghost tms = token_models(tokens@);
        let ghost dms = flag_models(flag_definitions@);
        if tokens.len() == 0 {
            return Err(ArgumentError::new(ArgumentErrorKind::EmptyArgumentList));
        }
        let binary = tokens[0].text.clone();
        let mut positional: Vec<Variant> = Vec::new();
        let mut named: Vec<NamedEntry> = Vec::new();
        let mut i: usize = 1;
        proof {
            assert(positional@.map_values(|v: Variant| v@) =~= Seq::<VariantView>::empty());
            assert(entries_map(named@) =~= Map::<Seq<char>, VariantView>::empty());
        }
        while i < tokens.len()
            invariant
                1 <= i <= tokens@.len(),
                tms == token_models(tokens@),
                dms == flag_models(flag_definitions@),
                tms.len() == tokens@.len(),
                binary@ == tms[0].text,
                spec_parse_stream(
                    tms,
                    i as int,
                    positional_types@,
                    dms,
                    positional@.map_values(|v: Variant| v@),
                    entries_map(named@),
                ) == spec_parse_stream(
                    tms,
                    1,
                    positional_types@,
                    dms,
                    Seq::<VariantView>::empty(),
                    Map::<Seq<char>, VariantView>::empty(),
                ),
            decreases tokens@.len() - i,
        {
            let ghost cur_pos = positional@.map_values(|v: Variant| v@);
            let ghost cur_named = entries_map(named@);
            let tok = &tokens[i];
            proof {
                assert(tms[i as int] == tokens@[i as int]@);
            }
            match match_flag_definition(flag_definitions, tok.text.as_str()) {
                Err(e) => {
                    return Err(e);
                },
                Ok(Some(def)) => {
                    let ghost j = spec_match_def(dms, tms[i as int].text)->Ok_0->Some_0;
                    proof {
                        assert(*def == flag_definitions@[j]);
                        assert(def@ == dms[j]);
                    }
                    if def.allowed_type.is_unit() {
                        let entry = NamedEntry { name: def.name.clone(), value: Variant::Bool(true) };
                        proof {
                            lemma_entries_map_push(named@, entry);
                        }
                        named.push(entry);
                        i += 1;
                        proof {
                            assert(entries_map(named@) == cur_named.insert(
                                dms[j].name,
                                VariantView::Bool { value: true },
                            ));
                        }
                    } else {
                        if i + 1 >= tokens.len() {
                            return Err(
                                ArgumentError::new(
                                    ArgumentErrorKind::MissingFlagValue { name: def.name.clone() },
                                ),
                            );
                        }
                        let value_tok = &tokens[i + 1];
                        proof {
                            assert(tms[i as int + 1] == tokens@[i as int + 1]@);
                        }
                        match def.allowed_type.parse(value_tok) {
                            None => {
                                return Err(
                                    ArgumentError::new(
                                        ArgumentErrorKind::InvalidFlagValue {
                                            name: def.name.clone(),
                                            value: value_tok.text.clone(),
                                        },
                                    ),
                                );
                            },
                            Some(v) => {
                                let entry = NamedEntry { name: def.name.clone(), value: v };
                                proof {
                                    lemma_entries_map_push(named@, entry);
                                }
                                named.push(entry);
                                i += 2;
                            },
                        }
                    }
                },
                Ok(None) => {
                    let k = positional.len();
                    if k >= positional_types.len() {
                        return Err(ArgumentError::new(ArgumentErrorKind::TooManyPositionals));
                    }
                    match positional_types[k].parse(tok) {
                        None => {
                            return Err(
                                ArgumentError::new(
                                    ArgumentErrorKind::InvalidPositionalValue {
                                        index: k,
                                        allowed: positional_types[k],
                                    },
                                ),
                            );
                        },
                        Some(v) => {
                            proof {
                                assert(positional@.push(v).map_values(|x: Variant| x@) =~= cur_pos.push(
                                    v@,
                                ));
                            }
                            positional.push(v);
                            i += 1;
                        },
                    }
                },
            }
        }
        if positional.len() != positional_types.len() {
            return Err(ArgumentError::new(ArgumentErrorKind::TooFewPositionals));
        }
        let args = Args { binary, positional, named };
        proof {
            assert(args@ == spec_args(tms, positional_types@, dms)->Ok_0);
        }
        Ok(args)
    }

    /// Get the first token, which is normally the name of the binary.
    pub fn binary(&self) -> (r: &str)
        ensures
            r@ == self@.binary,
    {
        self.binary.as_str()
    }

    /// Gets a positional argument.  Because the first token is assumed to
    /// be the name of the binary and is kept separately, these indices are
    /// offset by one: index zero is the first positional value.  Named
    /// arguments can stand in any position, so the indices may differ
    /// further from the token's place in the raw stream.
    pub fn get_positional(&self, index: usize) -> (r: Option<&Variant>)
        ensures
            (match r {
                Some(v) => index < self@.positional.len() && v@ == self@.positional[index as int],
                None => index >= self@.positional.len(),
            }),
    {
        if index < self.positional.len() {
            Some(&self.positional[index])
        } else {
            None
        }
    }

    /// Gets a named argument.  Absence is the normal outcome for an
    /// optional flag the user did not supply, not an error.
    pub fn get_named(&self, name: &str) -> (r: Option<&Variant>)
        ensures
            (match r {
                Some(v) => self@.named.contains_key(name@) && v@ == self@.named[name@],
                None => !self@.named.contains_key(name@),
            }),
    {
        let mut i: usize = self.named.len();
        while i > 0
            invariant
                i <= self.named@.len(),
                forall|k: int| i <= k < self.named@.len() ==> self.named@[k].name@ != name@,
            decreases i,
        {
            i -= 1;
            if str_eq(self.named[i].name.as_str(), name) {
                proof {
                    lemma_entries_map_lookup(self.named@, name@, i as int);
                }
                return Some(&self.named[i].value);
            }
        }
        proof {
            lemma_entries_map_absent(self.named@, name@);
        }
        None
    }
}

} // verus!
