use vstd::prelude::*;
use vstd::string::StrSliceExecFns;
use vstd::string::StringSliceAdditionalSpecFns;

verus! {

/// The declarative rule set of one language: the literal markers of every
/// token category the engine recognizes.
#[derive(Debug)]
pub struct MatcherDef {
    pub name: String,
    pub delimiters: Vec<(Vec<u8>, Vec<u8>)>,
    pub line_comments: Vec<Vec<u8>>,
    pub block_comments: Vec<(Vec<u8>, Vec<u8>)>,
    pub strings: Vec<Vec<u8>>,
    pub chars: Vec<Vec<u8>>,
    pub block_strings: Vec<(Vec<u8>, Vec<u8>)>,
    pub inline_spans: Vec<(String, (Vec<u8>, Vec<u8>))>,
    pub block_spans: Vec<(String, (Vec<u8>, Vec<u8>))>,
}

/// Mathematical model of a rule set.
#[verifier::ext_equal]
pub struct GrammarModel {
    pub name: Seq<char>,
    pub delimiters: Seq<(Seq<u8>, Seq<u8>)>,
    pub line_comments: Seq<Seq<u8>>,
    pub block_comments: Seq<(Seq<u8>, Seq<u8>)>,
    pub strings: Seq<Seq<u8>>,
    pub chars: Seq<Seq<u8>>,
    pub block_strings: Seq<(Seq<u8>, Seq<u8>)>,
    pub inline_spans: Seq<(Seq<char>, (Seq<u8>, Seq<u8>))>,
    pub block_spans: Seq<(Seq<char>, (Seq<u8>, Seq<u8>))>,
}

/// View of a list of byte-vector markers.
pub open spec fn singles_view(l: Seq<Vec<u8>>) -> Seq<Seq<u8>> {
    l.map_values(|m: Vec<u8>| m@)
}

/// View of a list of open/close marker pairs.
pub open spec fn pairs_view(l: Seq<(Vec<u8>, Vec<u8>)>) -> Seq<(Seq<u8>, Seq<u8>)> {
    l.map_values(|p: (Vec<u8>, Vec<u8>)| (p.0@, p.1@))
}

/// View of a list of named span definitions.
pub open spec fn spans_view(l: Seq<(String, (Vec<u8>, Vec<u8>))>) -> Seq<(Seq<char>, (Seq<u8>, Seq<u8>))> {
    l.map_values(|s: (String, (Vec<u8>, Vec<u8>))| (s.0@, (s.1.0@, s.1.1@)))
}

impl View for MatcherDef {
    type V = GrammarModel;

    open spec fn view(&self) -> GrammarModel {
        GrammarModel {
            name: self.name@,
            delimiters: pairs_view(self.delimiters@),
            line_comments: singles_view(self.line_comments@),
            block_comments: pairs_view(self.block_comments@),
            strings: singles_view(self.strings@),
            chars: singles_view(self.chars@),
            block_strings: pairs_view(self.block_strings@),
            inline_spans: spans_view(self.inline_spans@),
            block_spans: spans_view(self.block_spans@),
        }
    }
}

/// Whether some marker in the list begins with the byte.
pub open spec fn singles_first(b: u8, l: Seq<Seq<u8>>) -> bool {
    exists|i: int| 0 <= i < l.len() && l[i].len() > 0 && l[i][0] == b
}

/// Whether some open or close marker in the pair list begins with the byte.
pub open spec fn pairs_first(b: u8, l: Seq<(Seq<u8>, Seq<u8>)>) -> bool {
    exists|i: int|
        0 <= i < l.len() && ((l[i].0.len() > 0 && l[i].0[0] == b) || (l[i].1.len() > 0
            && l[i].1[0] == b))
}

/// Whether some span marker in the list begins with the byte.
pub open spec fn spans_first(b: u8, l: Seq<(Seq<char>, (Seq<u8>, Seq<u8>))>) -> bool {
    exists|i: int|
        0 <= i < l.len() && ((l[i].1.0.len() > 0 && l[i].1.0[0] == b) || (l[i].1.1.len() > 0
            && l[i].1.1[0] == b))
}

/// The scanner's interesting-byte test: newline and backslash always, plus
/// the first byte of every marker of the grammar.
pub open spec fn is_interesting(g: GrammarModel, b: u8) -> bool {
    ||| b == 10
    ||| b == 92
    ||| pairs_first(b, g.delimiters)
    ||| singles_first(b, g.line_comments)
    ||| pairs_first(b, g.block_comments)
    ||| singles_first(b, g.strings)
    ||| singles_first(b, g.chars)
    ||| pairs_first(b, g.block_strings)
    ||| spans_first(b, g.inline_spans)
    ||| spans_first(b, g.block_spans)
}

/// The interesting bytes below `n`, in increasing order.
pub open spec fn interesting_below(g: GrammarModel, n: int) -> Seq<u8>
    decreases n,
{
    if n <= 0 {
        seq![]
    } else {
        interesting_below(g, n - 1) + if is_interesting(g, (n - 1) as u8) {
            seq![(n - 1) as u8]
        } else {
            seq![]
        }
    }
}

/// The scanner's full interesting-byte set for a grammar, sorted.
pub open spec fn interesting_spec(g: GrammarModel) -> Seq<u8> {
    interesting_below(g, 256)
}

fn singles_first_exec(b: u8, l: &Vec<Vec<u8>>) -> (r: bool)
    ensures
        r == singles_first(b, singles_view(l@)),
{
    let mut i: usize = 0;
    while i < l.len()
        invariant
            i <= l@.len(),
            forall|j: int|
                0 <= j < i ==> !(#[trigger] singles_view(l@)[j].len() > 0 && singles_view(l@)[j][0]
                    == b),
        decreases l@.len() - i,
    {
        if l[i].len() > 0 && l[i][0] == b {
            assert(singles_view(l@)[i as int].len() > 0 && singles_view(l@)[i as int][0] == b);
            return true;
        }
        i += 1;
    }
    false
}

fn pairs_first_exec(b: u8, l: &Vec<(Vec<u8>, Vec<u8>)>) -> (r: bool)
    ensures
        r == pairs_first(b, pairs_view(l@)),
{
    let mut i: usize = 0;
    while i < l.len()
        invariant
            i <= l@.len(),
            forall|j: int|
                0 <= j < i ==> !((#[trigger] pairs_view(l@)[j].0.len() > 0 && pairs_view(
                    l@,
                )[j].0[0] == b) || (pairs_view(l@)[j].1.len() > 0 && pairs_view(l@)[j].1[0] == b)),
        decreases l@.len() - i,
    {
        let p = &l[i];
        if (p.0.len() > 0 && p.0[0] == b) || (p.1.len() > 0 && p.1[0] == b) {
            assert((pairs_view(l@)[i as int].0.len() > 0 && pairs_view(l@)[i as int].0[0] == b)
                || (pairs_view(l@)[i as int].1.len() > 0 && pairs_view(l@)[i as int].1[0] == b));
            return true;
        }
        i += 1;
    }
    false
}

fn spans_first_exec(b: u8, l: &Vec<(String, (Vec<u8>, Vec<u8>))>) -> (r: bool)
    ensures
        r == spans_first(b, spans_view(l@)),
{
    let mut i: usize = 0;
    while i < l.len()
        invariant
            i <= l@.len(),
            forall|j: int|
                0 <= j < i ==> !((#[trigger] spans_view(l@)[j].1.0.len() > 0 && spans_view(
                    l@,
                )[j].1.0[0] == b) || (spans_view(l@)[j].1.1.len() > 0 && spans_view(l@)[j].1.1[0]
                    == b)),
        decreases l@.len() - i,
    {
        let p = &l[i];
        if (p.1.0.len() > 0 && p.1.0[0] == b) || (p.1.1.len() > 0 && p.1.1[0] == b) {
            assert((spans_view(l@)[i as int].1.0.len() > 0 && spans_view(l@)[i as int].1.0[0] == b)
                || (spans_view(l@)[i as int].1.1.len() > 0 && spans_view(l@)[i as int].1.1[0]
                    == b));
            return true;
        }
        i += 1;
    }
    false
}

/// Derives the scanner's interesting-byte set from a rule set: the union of
/// the first bytes of all markers, with newline and backslash always
/// included, handed back sorted and without repeats.
pub fn collect_tokens(def: &MatcherDef) -> (r: Vec<u8>)
    ensures
        r@ == interesting_spec(def@),
{
    let mut r: Vec<u8> = Vec::new();
    let mut b: usize = 0;
    while b < 256
        invariant
            b <= 256,
            r@ == interesting_below(def@, b as int),
        decreases 256 - b,
    {
        let by = b as u8;
        let hit = by == 10 || by == 92 || pairs_first_exec(by, &def.delimiters)
            || singles_first_exec(by, &def.line_comments) || pairs_first_exec(
            by,
            &def.block_comments,
        ) || singles_first_exec(by, &def.strings) || singles_first_exec(by, &def.chars)
            || pairs_first_exec(by, &def.block_strings) || spans_first_exec(by, &def.inline_spans)
            || spans_first_exec(by, &def.block_spans);
        if hit {
            r.push(by);
        }
        assert(r@ =~= interesting_below(def@, b + 1));
        b += 1;
    }
    r
}

} // verus!

verus! {

fn single(m: &str) -> (r: Vec<u8>)
    ensures
        r@ == m.spec_bytes(),
{
    m.as_bytes_vec()
}

fn pair(o: &str, c: &str) -> (r: (Vec<u8>, Vec<u8>))
    ensures
        r.0@ == o.spec_bytes(),
        r.1@ == c.spec_bytes(),
{
    (o.as_bytes_vec(), c.as_bytes_vec())
}

fn span(name: &str, o: &str, c: &str) -> (r: (String, (Vec<u8>, Vec<u8>)))
    ensures
        r.0@ == name@,
        r.1.0@ == o.spec_bytes(),
        r.1.1@ == c.spec_bytes(),
{
    (name.to_owned(), (o.as_bytes_vec(), c.as_bytes_vec()))
}

/// The round, square and curly bracket pairs every built-in language shares.
pub open spec fn std_delims_model() -> Seq<(Seq<u8>, Seq<u8>)> {
    seq![
        ("(".spec_bytes(), ")".spec_bytes()),
        ("[".spec_bytes(), "]".spec_bytes()),
        ("{".spec_bytes(), "}".spec_bytes()),
    ]
}

fn std_delims() -> (r: Vec<(Vec<u8>, Vec<u8>)>)
    ensures
        pairs_view(r@) == std_delims_model(),
{
    let mut r: Vec<(Vec<u8>, Vec<u8>)> = Vec::new();
    r.push(pair("(", ")"));
    r.push(pair("[", "]"));
    r.push(pair("{", "}"));
    assert(pairs_view(r@) =~~= std_delims_model());
    r
}

fn empty_def(name: &str) -> (r: MatcherDef)
    ensures
        r@ == (GrammarModel {
            name: name@,
            delimiters: std_delims_model(),
            line_comments: seq![],
            block_comments: seq![],
            strings: seq![],
            chars: seq![],
            block_strings: seq![],
            inline_spans: seq![],
            block_spans: seq![],
        }),
        r.line_comments@ == Seq::<Vec<u8>>::empty(),
        r.block_comments@ == Seq::<(Vec<u8>, Vec<u8>)>::empty(),
        r.strings@ == Seq::<Vec<u8>>::empty(),
        r.chars@ == Seq::<Vec<u8>>::empty(),
        r.block_strings@ == Seq::<(Vec<u8>, Vec<u8>)>::empty(),
        r.inline_spans@ == Seq::<(String, (Vec<u8>, Vec<u8>))>::empty(),
        r.block_spans@ == Seq::<(String, (Vec<u8>, Vec<u8>))>::empty(),
{
    let r = MatcherDef {
        name: name.to_owned(),
        delimiters: std_delims(),
        line_comments: Vec::new(),
        block_comments: Vec::new(),
        strings: Vec::new(),
        chars: Vec::new(),
        block_strings: Vec::new(),
        inline_spans: Vec::new(),
        block_spans: Vec::new(),
    };
    assert(singles_view(Seq::<Vec<u8>>::empty()) =~= Seq::<Seq<u8>>::empty());
    assert(pairs_view(Seq::<(Vec<u8>, Vec<u8>)>::empty()) =~= Seq::<(Seq<u8>, Seq<u8>)>::empty());
    assert(spans_view(Seq::<(String, (Vec<u8>, Vec<u8>))>::empty()) =~= Seq::<
        (Seq<char>, (Seq<u8>, Seq<u8>)),
    >::empty());
    r
}

} // verus!

verus! {

/// One language model: the shared bracket pairs plus the given markers.
pub open spec fn lang_model(
    name: Seq<char>,
    line_comments: Seq<Seq<u8>>,
    block_comments: Seq<(Seq<u8>, Seq<u8>)>,
    strings: Seq<Seq<u8>>,
    chars: Seq<Seq<u8>>,
    block_strings: Seq<(Seq<u8>, Seq<u8>)>,
    inline_spans: Seq<(Seq<char>, (Seq<u8>, Seq<u8>))>,
    block_spans: Seq<(Seq<char>, (Seq<u8>, Seq<u8>))>,
) -> GrammarModel {
    GrammarModel {
        name,
        delimiters: std_delims_model(),
        line_comments,
        block_comments,
        strings,
        chars,
        block_strings,
        inline_spans,
        block_spans,
    }
}

/// C: line and block comments, double-quoted strings, character quotes.
pub open spec fn c_model() -> GrammarModel {
    lang_model(
        "c"@,
        seq!["//".spec_bytes()],
        seq![("/*".spec_bytes(), "*/".spec_bytes())],
        seq!["\"".spec_bytes()],
        seq!["'".spec_bytes()],
        seq![],
        seq![],
        seq![],
    )
}

/// C++: C plus raw block strings.
pub open spec fn cpp_model() -> GrammarModel {
    lang_model(
        "cpp"@,
        seq!["//".spec_bytes()],
        seq![("/*".spec_bytes(), "*/".spec_bytes())],
        seq!["\"".spec_bytes()],
        seq!["'".spec_bytes()],
        seq![("R\"(".spec_bytes(), ")\"".spec_bytes())],
        seq![],
        seq![],
    )
}

/// TeX: percent line comments over the shared brackets.
pub open spec fn tex_model() -> GrammarModel {
    lang_model("tex"@, seq!["%".spec_bytes()], seq![], seq![], seq![], seq![], seq![], seq![])
}

/// Nix: hash line comments, block comments, strings, two-quote block strings.
pub open spec fn nix_model() -> GrammarModel {
    lang_model(
        "nix"@,
        seq!["#".spec_bytes()],
        seq![("/*".spec_bytes(), "*/".spec_bytes())],
        seq!["\"".spec_bytes()],
        seq![],
        seq![("''".spec_bytes(), "''".spec_bytes())],
        seq![],
        seq![],
    )
}

/// Lean: dash line comments and dash block comments.
pub open spec fn lean_model() -> GrammarModel {
    lang_model(
        "lean"@,
        seq!["--".spec_bytes()],
        seq![("/-".spec_bytes(), "-/".spec_bytes())],
        seq!["\"".spec_bytes()],
        seq![],
        seq![],
        seq![],
        seq![],
    )
}

/// Elixir: hash line comments, strings, triple-quote block strings.
pub open spec fn elixir_model() -> GrammarModel {
    lang_model(
        "elixir"@,
        seq!["#".spec_bytes()],
        seq![],
        seq!["\"".spec_bytes()],
        seq![],
        seq![("\"\"\"".spec_bytes(), "\"\"\"".spec_bytes())],
        seq![],
        seq![],
    )
}

/// Scala: C-style comments, strings, triple-quote block strings.
pub open spec fn scala_model() -> GrammarModel {
    lang_model(
        "scala"@,
        seq!["//".spec_bytes()],
        seq![("/*".spec_bytes(), "*/".spec_bytes())],
        seq!["\"".spec_bytes()],
        seq![],
        seq![("\"\"\"".spec_bytes(), "\"\"\"".spec_bytes())],
        seq![],
        seq![],
    )
}

/// R: hash line comments, double- and single-quoted strings.
pub open spec fn r_model() -> GrammarModel {
    lang_model(
        "r"@,
        seq!["#".spec_bytes()],
        seq![],
        seq!["\"".spec_bytes(), "'".spec_bytes()],
        seq![],
        seq![],
        seq![],
        seq![],
    )
}

/// OCaml: parenthesis block comments and strings.
pub open spec fn ocaml_model() -> GrammarModel {
    lang_model(
        "ocaml"@,
        seq![],
        seq![("(*".spec_bytes(), "*)".spec_bytes())],
        seq!["\"".spec_bytes()],
        seq![],
        seq![],
        seq![],
        seq![],
    )
}

/// F#: line comments, parenthesis block comments, triple-quote block strings.
pub open spec fn fsharp_model() -> GrammarModel {
    lang_model(
        "fsharp"@,
        seq!["//".spec_bytes()],
        seq![("(*".spec_bytes(), "*)".spec_bytes())],
        seq!["\"".spec_bytes()],
        seq![],
        seq![("\"\"\"".spec_bytes(), "\"\"\"".spec_bytes())],
        seq![],
        seq![],
    )
}

/// Objective-C: C-style comments and strings.
pub open spec fn objc_model() -> GrammarModel {
    lang_model(
        "objc"@,
        seq!["//".spec_bytes()],
        seq![("/*".spec_bytes(), "*/".spec_bytes())],
        seq!["\"".spec_bytes()],
        seq![],
        seq![],
        seq![],
        seq![],
    )
}

/// Markdown: inline code spans and fenced code-block spans.
pub open spec fn markdown_model() -> GrammarModel {
    lang_model(
        "markdown"@,
        seq![],
        seq![],
        seq![],
        seq![],
        seq![],
        seq![("code"@, ("`".spec_bytes(), "`".spec_bytes()))],
        seq![("codeblock"@, ("```".spec_bytes(), "```".spec_bytes()))],
    )
}

fn finish(d: MatcherDef, Ghost(m): Ghost<GrammarModel>) -> (r: MatcherDef)
    requires
        d@.name == m.name,
        d@.delimiters == m.delimiters,
        d@.line_comments =~= m.line_comments,
        d@.block_comments =~~= m.block_comments,
        d@.strings =~= m.strings,
        d@.chars =~= m.chars,
        d@.block_strings =~~= m.block_strings,
        d@.inline_spans =~~= m.inline_spans,
        d@.block_spans =~~= m.block_spans,
    ensures
        r@ == m,
{
    assert(d@ =~~= m);
    d
}

fn c_def() -> (r: MatcherDef)
    ensures
        r@ == c_model(),
{
    let mut d = empty_def("c");
    d.line_comments.push(single("//"));
    d.block_comments.push(pair("/*", "*/"));
    d.strings.push(single("\""));
    d.chars.push(single("'"));
    finish(d, Ghost(c_model()))
}

fn cpp_def() -> (r: MatcherDef)
    ensures
        r@ == cpp_model(),
{
    let mut d = empty_def("cpp");
    d.line_comments.push(single("//"));
    d.block_comments.push(pair("/*", "*/"));
    d.strings.push(single("\""));
    d.chars.push(single("'"));
    d.block_strings.push(pair("R\"(", ")\""));
    finish(d, Ghost(cpp_model()))
}

fn tex_def() -> (r: MatcherDef)
    ensures
        r@ == tex_model(),
{
    let mut d = empty_def("tex");
    d.line_comments.push(single("%"));
    finish(d, Ghost(tex_model()))
}

fn nix_def() -> (r: MatcherDef)
    ensures
        r@ == nix_model(),
{
    let mut d = empty_def("nix");
    d.line_comments.push(single("#"));
    d.block_comments.push(pair("/*", "*/"));
    d.strings.push(single("\""));
    d.block_strings.push(pair("''", "''"));
    finish(d, Ghost(nix_model()))
}

fn lean_def() -> (r: MatcherDef)
    ensures
        r@ == lean_model(),
{
    let mut d = empty_def("lean");
    d.line_comments.push(single("--"));
    d.block_comments.push(pair("/-", "-/"));
    d.strings.push(single("\""));
    finish(d, Ghost(lean_model()))
}

fn elixir_def() -> (r: MatcherDef)
    ensures
        r@ == elixir_model(),
{
    let mut d = empty_def("elixir");
    d.line_comments.push(single("#"));
    d.strings.push(single("\""));
    d.block_strings.push(pair("\"\"\"", "\"\"\""));
    finish(d, Ghost(elixir_model()))
}

fn scala_def() -> (r: MatcherDef)
    ensures
        r@ == scala_model(),
{
    let mut d = empty_def("scala");
    d.line_comments.push(single("//"));
    d.block_comments.push(pair("/*", "*/"));
    d.strings.push(single("\""));
    d.block_strings.push(pair("\"\"\"", "\"\"\""));
    finish(d, Ghost(scala_model()))
}

fn r_def() -> (r: MatcherDef)
    ensures
        r@ == r_model(),
{
    let mut d = empty_def("r");
    d.line_comments.push(single("#"));
    d.strings.push(single("\""));
    d.strings.push(single("'"));
    finish(d, Ghost(r_model()))
}

fn ocaml_def() -> (r: MatcherDef)
    ensures
        r@ == ocaml_model(),
{
    let mut d = empty_def("ocaml");
    d.block_comments.push(pair("(*", "*)"));
    d.strings.push(single("\""));
    finish(d, Ghost(ocaml_model()))
}

fn fsharp_def() -> (r: MatcherDef)
    ensures
        r@ == fsharp_model(),
{
    let mut d = empty_def("fsharp");
    d.line_comments.push(single("//"));
    d.block_comments.push(pair("(*", "*)"));
    d.strings.push(single("\""));
    d.block_strings.push(pair("\"\"\"", "\"\"\""));
    finish(d, Ghost(fsharp_model()))
}

fn objc_def() -> (r: MatcherDef)
    ensures
        r@ == objc_model(),
{
    let mut d = empty_def("objc");
    d.line_comments.push(single("//"));
    d.block_comments.push(pair("/*", "*/"));
    d.strings.push(single("\""));
    finish(d, Ghost(objc_model()))
}

fn markdown_def() -> (r: MatcherDef)
    ensures
        r@ == markdown_model(),
{
    let mut d = empty_def("markdown");
    d.inline_spans.push(span("code", "`", "`"));
    d.block_spans.push(span("codeblock", "```", "```"));
    finish(d, Ghost(markdown_model()))
}

/// The rule set registered under a language name, or `None` for a language
/// the registry does not know.
pub open spec fn grammar_spec(name: Seq<u8>) -> Option<GrammarModel> {
    if name == "c".spec_bytes() {
        Some(c_model())
    } else if name == "cpp".spec_bytes() {
        Some(cpp_model())
    } else if name == "tex".spec_bytes() {
        Some(tex_model())
    } else if name == "nix".spec_bytes() {
        Some(nix_model())
    } else if name == "lean".spec_bytes() {
        Some(lean_model())
    } else if name == "elixir".spec_bytes() {
        Some(elixir_model())
    } else if name == "scala".spec_bytes() {
        Some(scala_model())
    } else if name == "r".spec_bytes() {
        Some(r_model())
    } else if name == "ocaml".spec_bytes() {
        Some(ocaml_model())
    } else if name == "fsharp".spec_bytes() {
        Some(fsharp_model())
    } else if name == "objc".spec_bytes() {
        Some(objc_model())
    } else if name == "markdown".spec_bytes() {
        Some(markdown_model())
    } else {
        None
    }
}

/// Looks a language up in the registry; an unknown name yields no grammar
/// rather than failing.
pub fn grammar_for(name: &str) -> (r: Option<MatcherDef>)
    ensures
        match r {
            Some(d) => grammar_spec(name.spec_bytes()) == Some(d@),
            None => grammar_spec(name.spec_bytes()) is None,
        },
{
    let nb = name.as_bytes();
    if crate::bytes_eq(nb, "c".as_bytes()) {
        Some(c_def())
    } else if crate::bytes_eq(nb, "cpp".as_bytes()) {
        Some(cpp_def())
    } else if crate::bytes_eq(nb, "tex".as_bytes()) {
        Some(tex_def())
    } else if crate::bytes_eq(nb, "nix".as_bytes()) {
        Some(nix_def())
    } else if crate::bytes_eq(nb, "lean".as_bytes()) {
        Some(lean_def())
    } else if crate::bytes_eq(nb, "elixir".as_bytes()) {
        Some(elixir_def())
    } else if crate::bytes_eq(nb, "scala".as_bytes()) {
        Some(scala_def())
    } else if crate::bytes_eq(nb, "r".as_bytes()) {
        Some(r_def())
    } else if crate::bytes_eq(nb, "ocaml".as_bytes()) {
        Some(ocaml_def())
    } else if crate::bytes_eq(nb, "fsharp".as_bytes()) {
        Some(fsharp_def())
    } else if crate::bytes_eq(nb, "objc".as_bytes()) {
        Some(objc_def())
    } else if crate::bytes_eq(nb, "markdown".as_bytes()) {
        Some(markdown_def())
    } else {
        None
    }
}

} // verus!
