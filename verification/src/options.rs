use vstd::prelude::*;

verus! {

broadcast use vstd::string::group_string_axioms;

/// The label queried for metadata when a call names none.
pub open spec fn default_label() -> Seq<char> {
    seq!['m', 'e', 't', 'a']
}

/// Options for the engine's constructor.
#[derive(Clone, Debug, PartialEq)]
pub struct TyHtmlOptions {
    /// Extra font directories scanned once, at construction time.
    pub font_paths: Option<Vec<String>>,
}

/// Options for a single compile call.
#[derive(Clone, Debug, PartialEq)]
pub struct CompileOptions {
    /// Strip everything outside `<body>…</body>`.
    pub body_only: Option<bool>,
    /// Pretty-print the HTML output.
    pub pretty: Option<bool>,
    /// Skip metadata extraction.
    pub no_metadata: Option<bool>,
    /// Label to query for metadata; `"meta"` when absent.
    pub metadata_label: Option<String>,
    /// Font directories for this call only.
    pub font_paths: Option<Vec<String>>,
}

/// Compile options with every optional field resolved to a concrete value.
#[derive(Clone, Debug, PartialEq)]
pub struct FlattenedOptions {
    pub body_only: bool,
    pub pretty: bool,
    pub no_metadata: bool,
    pub label_name: String,
    pub extra_font_paths: Vec<String>,
}

/// The value an optional flag takes: the given one, or `false`.
pub open spec fn flag_or_false(flag: Option<bool>) -> bool {
    match flag {
        Some(b) => b,
        None => false,
    }
}

/// The views of a sequence of strings.
pub open spec fn string_views(s: Seq<String>) -> Seq<Seq<char>> {
    s.map_values(|x: String| x@)
}

/// The font directories an optional list names: the list, or none.
pub open spec fn dirs_or_empty(dirs: Option<Vec<String>>) -> Seq<Seq<char>> {
    match dirs {
        Some(v) => string_views(v@),
        None => Seq::empty(),
    }
}

/// What a set of resolved options holds for the given call options.
pub open spec fn flattens_to(options: Option<CompileOptions>, flat: FlattenedOptions) -> bool {
    match options {
        Some(o) => {
            &&& flat.body_only == flag_or_false(o.body_only)
            &&& flat.pretty == flag_or_false(o.pretty)
            &&& flat.no_metadata == flag_or_false(o.no_metadata)
            &&& flat.label_name@ == (match o.metadata_label {
                Some(l) => l@,
                None => default_label(),
            })
            &&& string_views(flat.extra_font_paths@) == dirs_or_empty(o.font_paths)
        },
        None => {
            &&& !flat.body_only
            &&& !flat.pretty
            &&& !flat.no_metadata
            &&& flat.label_name@ == default_label()
            &&& flat.extra_font_paths@.len() == 0
        },
    }
}

fn default_label_string() -> (s: String)
    ensures
        s@ == default_label(),
{
    let s = "meta".to_string();
    proof {
        reveal_strlit("meta");
    }
    s
}

fn flag_value(flag: Option<bool>) -> (b: bool)
    ensures
        b == flag_or_false(flag),
{
    match flag {
        Some(b) => b,
        None => false,
    }
}

fn dirs_value(dirs: Option<Vec<String>>) -> (v: Vec<String>)
    ensures
        string_views(v@) == dirs_or_empty(dirs),
{
    match dirs {
        Some(v) => v,
        None => {
            let v: Vec<String> = Vec::new();
            assert(string_views(v@) =~= Seq::<Seq<char>>::empty());
            v
        },
    }
}

impl CompileOptions {
    /// Resolves the options of a call: every absent flag is `false`, an
    /// absent label is `"meta"`, and absent font directories are none.
    pub fn flatten_or_default(options: Option<CompileOptions>) -> (flat: FlattenedOptions)
        ensures
            flattens_to(options, flat),
            options matches Some(o) ==> flat.body_only == (o.body_only == Some(true)),
            options matches Some(o) ==> flat.pretty == (o.pretty == Some(true)),
            options matches Some(o) ==> flat.no_metadata == (o.no_metadata == Some(true)),
            match options {
                Some(o) => match o.metadata_label {
                    Some(l) => flat.label_name@ == l@,
                    None => flat.label_name@ == seq!['m', 'e', 't', 'a'],
                },
                None => flat.label_name@ == seq!['m', 'e', 't', 'a'],
            },
            match options {
                Some(o) => match o.font_paths {
                    Some(dirs) => {
                        &&& flat.extra_font_paths@.len() == dirs@.len()
                        &&& forall|i: int|
                            0 <= i < dirs@.len() ==> #[trigger] flat.extra_font_paths@[i]@
                                == dirs@[i]@
                    },
                    None => flat.extra_font_paths@.len() == 0,
                },
                None => flat.extra_font_paths@.len() == 0,
            },
            options is None ==> !flat.body_only && !flat.pretty && !flat.no_metadata,
    {
        let ghost given = options;
        let flat = match options {
            Some(opts) => {
                let label_name = match opts.metadata_label {
                    Some(l) => l,
                    None => default_label_string(),
                };
                FlattenedOptions {
                    body_only: flag_value(opts.body_only),
                    pretty: flag_value(opts.pretty),
                    no_metadata: flag_value(opts.no_metadata),
                    label_name,
                    extra_font_paths: dirs_value(opts.font_paths),
                }
            },
            None => FlattenedOptions {
                body_only: false,
                pretty: false,
                no_metadata: false,
                label_name: default_label_string(),
                extra_font_paths: Vec::new(),
            },
        };
        proof {
            lemma_resolved_options(given, flat);
        }
        flat
    }
}

impl TyHtmlOptions {
    /// The font directories a constructor scans: those the options name, or
    /// none when the options or their list are absent.
    pub fn font_dirs(options: Option<TyHtmlOptions>) -> (dirs: Vec<String>)
        ensures
            string_views(dirs@) == (match options {
                Some(o) => dirs_or_empty(o.font_paths),
                None => Seq::empty(),
            }),
            match options {
                Some(o) => match o.font_paths {
                    Some(paths) => {
                        &&& dirs@.len() == paths@.len()
                        &&& forall|i: int|
                            0 <= i < paths@.len() ==> #[trigger] dirs@[i]@ == paths@[i]@
                    },
                    None => dirs@.len() == 0,
                },
                None => dirs@.len() == 0,
            },
    {
        let opts = match options {
            Some(o) => o,
            None => TyHtmlOptions { font_paths: None },
        };
        let ghost given = opts.font_paths;
        let dirs = dirs_value(opts.font_paths);
        proof {
            assert(string_views(dirs@).len() == dirs@.len());
            if let Some(paths) = given {
                assert(string_views(paths@).len() == paths@.len());
                assert forall|i: int| 0 <= i < paths@.len() implies #[trigger] dirs@[i]@
                    == paths@[i]@ by {
                    assert(string_views(dirs@)[i] == dirs@[i]@);
                    assert(string_views(paths@)[i] == paths@[i]@);
                }
            }
        }
        dirs
    }
}

/// Resolved options say what the call options say: a flag is set exactly
/// when the call sets it to `true` (an explicit `false` and an absent flag
/// both leave it unset), the label is the call's label or else `"meta"`,
/// and the font directories are the call's, one for one, or else none.
pub proof fn lemma_resolved_options(options: Option<CompileOptions>, flat: FlattenedOptions)
    requires
        flattens_to(options, flat),
    ensures
        options matches Some(o) ==> flat.body_only == (o.body_only == Some(true)),
        options matches Some(o) ==> flat.pretty == (o.pretty == Some(true)),
        options matches Some(o) ==> flat.no_metadata == (o.no_metadata == Some(true)),
        match options {
            Some(o) => match o.metadata_label {
                Some(l) => flat.label_name@ == l@,
                None => flat.label_name@ == seq!['m', 'e', 't', 'a'],
            },
            None => flat.label_name@ == seq!['m', 'e', 't', 'a'],
        },
        match options {
            Some(o) => match o.font_paths {
                Some(dirs) => {
                    &&& flat.extra_font_paths@.len() == dirs@.len()
                    &&& forall|i: int|
                        0 <= i < dirs@.len() ==> #[trigger] flat.extra_font_paths@[i]@
                            == dirs@[i]@
                },
                None => flat.extra_font_paths@.len() == 0,
            },
            None => flat.extra_font_paths@.len() == 0,
        },
        options is None ==> !flat.body_only && !flat.pretty && !flat.no_metadata,
{
    match options {
        Some(o) => {
            assert(flat.label_name@ == (match o.metadata_label {
                Some(l) => l@,
                None => default_label(),
            }));
            assert(string_views(flat.extra_font_paths@) == dirs_or_empty(o.font_paths));
            match o.font_paths {
                Some(dirs) => {
                    assert(string_views(flat.extra_font_paths@) == string_views(dirs@));
                    assert(flat.extra_font_paths@.len() == dirs@.len()) by {
                        assert(string_views(flat.extra_font_paths@).len() == flat.extra_font_paths@.len());
                    }
                    assert forall|i: int| 0 <= i < dirs@.len() implies #[trigger] flat.extra_font_paths@[i]@
                        == dirs@[i]@ by {
                        assert(string_views(flat.extra_font_paths@)[i] == flat.extra_font_paths@[i]@);
                        assert(string_views(dirs@)[i] == dirs@[i]@);
                    }
                },
                None => {
                    assert(string_views(flat.extra_font_paths@).len() == 0);
                },
            }
        },
        None => {},
    }
}

/// Leaving the options of a call out resolves exactly as passing options in
/// which every field is absent.
pub proof fn lemma_absent_options_are_empty_options(a: FlattenedOptions, b: FlattenedOptions)
    requires
        flattens_to(None, a),
        flattens_to(
            Some(
                CompileOptions {
                    body_only: None,
                    pretty: None,
                    no_metadata: None,
                    metadata_label: None,
                    font_paths: None,
                },
            ),
            b,
        ),
    ensures
        a.body_only == b.body_only,
        a.pretty == b.pretty,
        a.no_metadata == b.no_metadata,
        a.label_name@ == b.label_name@,
        string_views(a.extra_font_paths@) == string_views(b.extra_font_paths@),
{
    assert(string_views(a.extra_font_paths@) =~= Seq::<Seq<char>>::empty());
}

} // verus!
