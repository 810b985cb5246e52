//! The environment a service runs with on a host: the variables sourced from the environment
//! files, the ones the zookeeper sets, and how they are written out.
use vstd::prelude::*;
use crate::project_view::{decimal, push_decimal};
use crate::text::{push_text, str_eq};

verus! {

/// Variables by name; setting a name again replaces its value.
pub struct EnvVars {
    vars: Vec<(String, String)>,
}

/// No name occurs twice.
pub open spec fn names_distinct(v: Seq<(String, String)>) -> bool {
    forall|i: int, j: int| 0 <= i < v.len() && 0 <= j < v.len() && i != j ==> #[trigger] v[i].0@ != #[trigger] v[j].0@
}

/// The variables as a map from name to value.
pub open spec fn as_map(v: Seq<(String, String)>) -> Map<Seq<char>, Seq<char>> {
    Map::new(
        |k: Seq<char>| exists|i: int| 0 <= i < v.len() && v[i].0@ == k,
        |k: Seq<char>| v[choose|i: int| 0 <= i < v.len() && v[i].0@ == k].1@,
    )
}

impl View for EnvVars {
    type V = Map<Seq<char>, Seq<char>>;

    closed spec fn view(&self) -> Map<Seq<char>, Seq<char>> {
        as_map(self.vars@)
    }
}

impl EnvVars {
    #[verifier::type_invariant]
    closed spec fn inv(self) -> bool {
        names_distinct(self.vars@)
    }

    /// No variable.
    pub fn new() -> (r: EnvVars)
        ensures
            r@ == Map::<Seq<char>, Seq<char>>::empty(),
    {
        let r = EnvVars { vars: Vec::new() };
        assert(as_map(r.vars@) =~= Map::<Seq<char>, Seq<char>>::empty());
        r
    }

    /// Sets `name` to `value`, replacing any value it had.
    pub fn insert(&mut self, name: String, value: String)
        ensures
            final(self)@ == old(self)@.insert(name@, value@),
    {
        proof {
            use_type_invariant(&*self);
        }
        let ghost old_vars = self.vars@;
        let mut i: usize = 0;
        let mut found = false;
        while i < self.vars.len()
            invariant_except_break
                i <= self.vars.len(),
                !found,
                forall|k: int| 0 <= k < i ==> old_vars[k].0@ != name@,
            invariant
                self.vars@ == old_vars,
            ensures
                found ==> i < old_vars.len() && old_vars[i as int].0@ == name@,
                !found ==> forall|k: int| 0 <= k < old_vars.len() ==> old_vars[k].0@ != name@,
            decreases self.vars.len() - i,
        {
            if str_eq(self.vars[i].0.as_str(), name.as_str()) {
                found = true;
                break;
            }
            i = i + 1;
        }
        if found {
            let ghost n = name@;
            let ghost val = value@;
            let mut vars: Vec<(String, String)> = Vec::new();
            std::mem::swap(&mut vars, &mut self.vars);
            vars.set(i, (name, value));
            proof {
                let nv = vars@;
                assert(names_distinct(nv)) by {
                    assert forall|a: int, b: int| 0 <= a < nv.len() && 0 <= b < nv.len() && a != b implies #[trigger] nv[a].0@
                        != #[trigger] nv[b].0@ by {
                        if a == i {
                            assert(old_vars[b].0@ != old_vars[i as int].0@);
                        } else if b == i {
                            assert(old_vars[a].0@ != old_vars[i as int].0@);
                        } else {
                            assert(old_vars[a].0@ != old_vars[b].0@);
                        }
                    }
                }
                assert(as_map(nv) =~= as_map(old_vars).insert(n, val)) by {
                    assert forall|k: Seq<char>| #[trigger] as_map(nv).contains_key(k) <==> as_map(old_vars).insert(n, val).contains_key(k) by {
                        if as_map(old_vars).contains_key(k) {
                            let j = choose|j: int| 0 <= j < old_vars.len() && old_vars[j].0@ == k;
                            if j == i {
                                assert(nv[i as int].0@ == n);
                            } else {
                                assert(nv[j].0@ == k);
                            }
                        }
                        if as_map(nv).contains_key(k) {
                            let j = choose|j: int| 0 <= j < nv.len() && nv[j].0@ == k;
                            if j != i {
                                assert(old_vars[j].0@ == k);
                            }
                        }
                        if k == n {
                            assert(nv[i as int].0@ == n);
                        }
                    }
                    assert forall|k: Seq<char>| #[trigger] as_map(nv).contains_key(k) implies as_map(nv)[k] == as_map(old_vars).insert(n, val)[k] by {
                        let j = choose|j: int| 0 <= j < nv.len() && nv[j].0@ == k;
                        if k == n {
                            assert(j == i);
                        } else {
                            assert(j != i);
                            assert(old_vars[j].0@ == k);
                            let j2 = choose|j2: int| 0 <= j2 < old_vars.len() && old_vars[j2].0@ == k;
                            assert(j2 == j);
                        }
                    }
                }
            }
            self.vars = vars;
            return;
        }
        let ghost n = name@;
        let ghost val = value@;
        let mut vars: Vec<(String, String)> = Vec::new();
        std::mem::swap(&mut vars, &mut self.vars);
        vars.push((name, value));
        proof {
            let nv = vars@;
            let last = (nv.len() - 1) as int;
            assert(names_distinct(nv)) by {
                assert forall|a: int, b: int| 0 <= a < nv.len() && 0 <= b < nv.len() && a != b implies #[trigger] nv[a].0@
                    != #[trigger] nv[b].0@ by {
                    if a == last {
                        assert(old_vars[b].0@ != n);
                    } else if b == last {
                        assert(old_vars[a].0@ != n);
                    } else {
                        assert(old_vars[a].0@ != old_vars[b].0@);
                    }
                }
            }
            assert(as_map(nv) =~= as_map(old_vars).insert(n, val)) by {
                assert forall|k: Seq<char>| #[trigger] as_map(nv).contains_key(k) <==> as_map(old_vars).insert(n, val).contains_key(k) by {
                    if as_map(old_vars).contains_key(k) {
                        let j = choose|j: int| 0 <= j < old_vars.len() && old_vars[j].0@ == k;
                        assert(nv[j].0@ == k);
                    }
                    if as_map(nv).contains_key(k) {
                        let j = choose|j: int| 0 <= j < nv.len() && nv[j].0@ == k;
                        if j != last {
                            assert(old_vars[j].0@ == k);
                        }
                    }
                    if k == n {
                        assert(nv[last].0@ == n);
                    }
                }
                assert forall|k: Seq<char>| #[trigger] as_map(nv).contains_key(k) implies as_map(nv)[k] == as_map(old_vars).insert(n, val)[k] by {
                    let j = choose|j: int| 0 <= j < nv.len() && nv[j].0@ == k;
                    if k == n {
                        assert(j == last);
                    } else {
                        assert(j != last);
                        assert(old_vars[j].0@ == k);
                        let j2 = choose|j2: int| 0 <= j2 < old_vars.len() && old_vars[j2].0@ == k;
                        assert(j2 == j);
                    }
                }
            }
        }
        self.vars = vars;
    }

    /// The variables, each once.
    pub fn entries(&self) -> (r: &Vec<(String, String)>)
        ensures
            names_distinct(r@),
            as_map(r@) == self@,
    {
        proof {
            use_type_invariant(self);
        }
        &self.vars
    }
}

/// `m` with each pair of `pairs` set in turn.
pub open spec fn insert_all(m: Map<Seq<char>, Seq<char>>, pairs: Seq<(Seq<char>, Seq<char>)>) -> Map<Seq<char>, Seq<char>>
    decreases pairs.len(),
{
    if pairs.len() == 0 {
        m
    } else {
        insert_all(m, pairs.drop_last()).insert(pairs.last().0, pairs.last().1)
    }
}

pub open spec fn pairs_view(v: Seq<(String, String)>) -> Seq<(Seq<char>, Seq<char>)> {
    Seq::new(v.len(), |i: int| (v[i].0@, v[i].1@))
}

fn insert_pairs(vars: &mut EnvVars, pairs: &Vec<(String, String)>)
    ensures
        final(vars)@ == insert_all(old(vars)@, pairs_view(pairs@)),
{
    let ghost start = vars@;
    let mut i: usize = 0;
    while i < pairs.len()
        invariant
            i <= pairs.len(),
            vars@ == insert_all(start, pairs_view(pairs@).take(i as int)),
        decreases pairs.len() - i,
    {
        vars.insert(pairs[i].0.clone(), pairs[i].1.clone());
        proof {
            assert(pairs_view(pairs@).take(i + 1).drop_last() =~= pairs_view(pairs@).take(i as int));
        }
        i = i + 1;
    }
    assert(pairs_view(pairs@).take(i as int) =~= pairs_view(pairs@));
}

/// What `str::to_uppercase` returns for a string.
pub uninterp spec fn uppercase(s: Seq<char>) -> Seq<char>;

/// Calls `str::to_uppercase`. Its contract names the result and claims nothing more of it: the
/// Unicode upper-case mapping is not restated here.
#[verifier::external_body]
fn to_uppercase(s: &str) -> (r: String)
    ensures
        r@ == uppercase(s@),
{
    s.to_uppercase()
}

/// `s` with every `-` turned into `_`.
pub open spec fn dashes_to_underscores(s: Seq<char>) -> Seq<char> {
    Seq::new(s.len(), |i: int| if s[i] == '-' { '_' } else { s[i] })
}

/// Turns every `-` of `s` into `_`.
pub fn underscore_dashes(s: &str) -> (r: String)
    ensures
        r@ == dashes_to_underscores(s@),
{
    let n = s.unicode_len();
    let mut out = String::new();
    let mut i: usize = 0;
    proof {
        reveal_strlit("_");
    }
    while i < n
        invariant
            n == s@.len(),
            i <= n,
            out@ == dashes_to_underscores(s@).take(i as int),
        decreases n - i,
    {
        let c = s.get_char(i);
        if c == '-' {
            push_text(&mut out, "_");
        } else {
            push_text(&mut out, s.substring_char(i, i + 1));
        }
        proof {
            reveal_strlit("_");
            assert(s@.subrange(i as int, i + 1) =~= seq![c]);
            assert(out@ =~= dashes_to_underscores(s@).take(i + 1));
        }
        i = i + 1;
    }
    assert(dashes_to_underscores(s@).take(n as int) =~= dashes_to_underscores(s@));
    out
}

/// The prefix of a project's port variables: the project's name upper-cased, `-` turned to `_`
/// (`ant-host-agent` gives `ANT_HOST_AGENT`).
pub fn variable_prefix(project: &str) -> (r: String)
    ensures
        r@ == dashes_to_underscores(uppercase(project@)),
{
    let up = to_uppercase(project);
    underscore_dashes(up.as_str())
}

/// The variables a service runs with: those sourced from the environment files (the global file
/// first, then the project's), then `PERSIST_DIR`, `SECRETS_DIR` and `VERSION`, then the ports the
/// manifest gives (each also under the project's own name), then the host's own additions.
/// A later setting of a name replaces an earlier one.
pub open spec fn service_env(
    sourced: Seq<(Seq<char>, Seq<char>)>,
    project: Seq<char>,
    version: Seq<char>,
    port: Option<u16>,
    metrics_port: Option<u16>,
    additional: Seq<(Seq<char>, Seq<char>)>,
) -> Map<Seq<char>, Seq<char>> {
    let prefix = dashes_to_underscores(uppercase(project));
    let m1 = insert_all(Map::empty(), sourced).insert("PERSIST_DIR"@, "/home/ant/persist/"@ + project).insert(
        "SECRETS_DIR"@,
        "./secrets"@,
    ).insert("VERSION"@, version);
    let m2 = match port {
        Some(p) => m1.insert("PORT"@, decimal(p as nat)).insert(prefix + "_PORT"@, decimal(p as nat)),
        None => m1,
    };
    let m3 = match metrics_port {
        Some(p) => m2.insert("METRICS_PORT"@, decimal(p as nat)).insert(prefix + "_METRICS_PORT"@, decimal(p as nat)),
        None => m2,
    };
    insert_all(m3, additional)
}

fn text(s: &str) -> (r: String)
    ensures
        r@ == s@,
{
    s.to_string()
}

fn number(n: u16) -> (r: String)
    ensures
        r@ == decimal(n as nat),
{
    let mut s = String::new();
    push_decimal(&mut s, n as usize);
    s
}

/// The variables a service runs with on a host.
pub fn source_env_variables(
    sourced: &Vec<(String, String)>,
    project: &str,
    version: &str,
    port: Option<u16>,
    metrics_port: Option<u16>,
    additional: &Vec<(String, String)>,
) -> (r: EnvVars)
    ensures
        r@ == service_env(pairs_view(sourced@), project@, version@, port, metrics_port, pairs_view(additional@)),
{
    let mut vars = EnvVars::new();
    insert_pairs(&mut vars, sourced);
    let mut persist = String::new();
    push_text(&mut persist, "/home/ant/persist/");
    push_text(&mut persist, project);
    vars.insert(text("PERSIST_DIR"), persist);
    vars.insert(text("SECRETS_DIR"), text("./secrets"));
    vars.insert(text("VERSION"), text(version));
    let prefix = variable_prefix(project);
    match port {
        Some(p) => {
            vars.insert(text("PORT"), number(p));
            let mut name = prefix.clone();
            push_text(&mut name, "_PORT");
            vars.insert(name, number(p));
        },
        None => {},
    }
    match metrics_port {
        Some(p) => {
            vars.insert(text("METRICS_PORT"), number(p));
            let mut name = prefix.clone();
            push_text(&mut name, "_METRICS_PORT");
            vars.insert(name, number(p));
        },
        None => {},
    }
    insert_pairs(&mut vars, additional);
    vars
}

/// One line of a `.env` file: `name=value`.
pub fn env_line(name: &str, value: &str) -> (r: String)
    ensures
        r@ == name@ + "="@ + value@ + "\n"@,
{
    let mut s = String::new();
    push_text(&mut s, name);
    push_text(&mut s, "=");
    push_text(&mut s, value);
    push_text(&mut s, "\n");
    s
}

/// `s` without its leading and trailing `"` characters, as handed to the compose template.
pub open spec fn strip_quotes(s: Seq<char>, from: int, to: int) -> bool {
    &&& 0 <= from <= to <= s.len()
    &&& forall|k: int| 0 <= k < from ==> s[k] == '"'
    &&& forall|k: int| to <= k < s.len() ==> s[k] == '"'
    &&& from < to ==> s[from] != '"' && s[to - 1] != '"'
}

/// `value` without its trailing, then its leading, `"` characters.
pub fn template_value(value: &str) -> (r: String)
    ensures
        exists|from: int, to: int| strip_quotes(value@, from, to) && r@ == value@.subrange(from, to),
{
    let n = value.unicode_len();
    let mut to: usize = n;
    while to > 0 && value.get_char(to - 1) == '"'
        invariant
            n == value@.len(),
            to <= n,
            forall|k: int| to <= k < n ==> value@[k] == '"',
        decreases to,
    {
        to = to - 1;
    }
    let mut from: usize = 0;
    while from < to && value.get_char(from) == '"'
        invariant
            n == value@.len(),
            from <= to <= n,
            forall|k: int| 0 <= k < from ==> value@[k] == '"',
        decreases to - from,
    {
        from = from + 1;
    }
    let r = value.substring_char(from, to).to_string();
    assert(strip_quotes(value@, from as int, to as int));
    r
}

/// The refusal to deploy a project to a host whose services do not include it.
pub fn missing_service_message(host: &str, project: &str) -> (r: String)
    ensures
        r@ == "cannot deploy to a ["@ + host@ + "] that doesn't have service ["@ + project@ + "] defined in services.json!"@,
{
    let mut s = String::new();
    push_text(&mut s, "cannot deploy to a [");
    push_text(&mut s, host);
    push_text(&mut s, "] that doesn't have service [");
    push_text(&mut s, project);
    push_text(&mut s, "] defined in services.json!");
    s
}

} // verus!
