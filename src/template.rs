use vstd::prelude::*;
use vstd::string::StringExecFns;

use crate::error::{Failure, ParseError};
use crate::tokenizer::{find_char, find_pair, is_first, is_first_pair, render_helper, segments};

verus! {

broadcast use vstd::std_specs::vec::group_vec_axioms;

/// A template body with named child templates to fill its placeholders.
pub struct NestedTemplate {
    body: String,
    sub_templates: Vec<(String, NestedTemplate)>,
}

/// The template stored under `name` in `v`: the first entry with that name.
pub open spec fn lookup(v: Seq<(String, NestedTemplate)>, name: Seq<char>) -> Option<NestedTemplate>
    decreases v.len(),
{
    if v.len() == 0 {
        None
    } else if v[0].0@ == name {
        Some(v[0].1)
    } else {
        lookup(v.drop_first(), name)
    }
}

/// `p` put in front of a rendered text, or the failure passed on.
pub open spec fn prefix_text(p: Seq<char>, r: Result<Seq<char>, Failure>) -> Result<
    Seq<char>,
    Failure,
> {
    match r {
        Ok(x) => Ok(p + x),
        Err(e) => Err(e),
    }
}

/// What rendering `t` gives: its body's segments, each placeholder replaced by
/// the rendered child of that name.
pub open spec fn rendered(t: NestedTemplate) -> Result<Seq<char>, Failure>
    decreases t, 1nat, 0nat,
{
    match segments(t.body_text()) {
        Ok(segs) => expand(t, segs),
        Err(e) => Err(e),
    }
}

/// The segments `segs` of `t`'s body, rendered left to right; the first failure wins.
pub open spec fn expand(t: NestedTemplate, segs: Seq<(bool, Seq<char>)>) -> Result<
    Seq<char>,
    Failure,
>
    decreases t, 0nat, segs.len(),
    via expand_decreases
{
    if segs.len() == 0 {
        Ok(Seq::empty())
    } else {
        let (is_placeholder, text) = segs[0];
        let head = if !is_placeholder {
            Ok(text)
        } else if t.children().contains_key(text) {
            rendered(t.children()[text])
        } else {
            Err(Failure::MissingTemplate(text))
        };
        match head {
            Ok(h) => prefix_text(h, expand(t, segs.drop_first())),
            Err(e) => Err(e),
        }
    }
}

#[via_fn]
proof fn expand_decreases(t: NestedTemplate, segs: Seq<(bool, Seq<char>)>) {
    if segs.len() > 0 {
        let text = segs[0].1;
        if t.children().contains_key(text) {
            let v = t.sub_templates@;
            lemma_lookup_member(v, text);
            let k = choose|k: int| 0 <= k < v.len() && v[k].1 == t.children()[text];
            assert(decreases_to!(t.sub_templates => t.sub_templates[k]));
        }
    }
}

proof fn lemma_lookup_member(v: Seq<(String, NestedTemplate)>, name: Seq<char>)
    requires
        lookup(v, name) is Some,
    ensures
        exists|k: int| 0 <= k < v.len() && v[k].1 == lookup(v, name)->Some_0,
    decreases v.len(),
{
    if v[0].0@ != name {
        lemma_lookup_member(v.drop_first(), name);
        let k = choose|k: int|
            0 <= k < v.drop_first().len() && v.drop_first()[k].1 == lookup(v, name)->Some_0;
        assert(v[k + 1].1 == lookup(v, name)->Some_0);
    } else {
        assert(v[0].1 == lookup(v, name)->Some_0);
    }
}

proof fn lemma_lookup_update(
    v: Seq<(String, NestedTemplate)>,
    k: int,
    x: (String, NestedTemplate),
    m: Seq<char>,
)
    requires
        0 <= k < v.len(),
        v[k].0@ == x.0@,
        forall|j: int| 0 <= j < k ==> v[j].0@ != x.0@,
    ensures
        lookup(v.update(k, x), m) == if m == x.0@ {
            Some(x.1)
        } else {
            lookup(v, m)
        },
    decreases k,
{
    let w = v.update(k, x);
    if k == 0 {
        assert(w.drop_first() =~= v.drop_first());
    } else {
        assert(w.drop_first() =~= v.drop_first().update(k - 1, x));
        assert(v[0].0@ != x.0@);
        lemma_lookup_update(v.drop_first(), k - 1, x, m);
    }
}

proof fn lemma_lookup_push(v: Seq<(String, NestedTemplate)>, x: (String, NestedTemplate), m: Seq<char>)
    requires
        lookup(v, x.0@) is None,
    ensures
        lookup(v.push(x), m) == if m == x.0@ {
            Some(x.1)
        } else {
            lookup(v, m)
        },
    decreases v.len(),
{
    if v.len() == 0 {
        assert(v.push(x).drop_first() =~= v);
    } else {
        assert(v.push(x).drop_first() =~= v.drop_first().push(x));
        lemma_lookup_push(v.drop_first(), x, m);
    }
}

impl NestedTemplate {
    /// The text of the body.
    pub closed spec fn body_text(&self) -> Seq<char> {
        self.body@
    }

    /// The child templates, by name.
    pub closed spec fn children(&self) -> Map<Seq<char>, NestedTemplate> {
        Map::new(
            |n: Seq<char>| lookup(self.sub_templates@, n) is Some,
            |n: Seq<char>| lookup(self.sub_templates@, n)->Some_0,
        )
    }

    /// A template with body `body` and no children.
    pub fn new(body: &str) -> (t: NestedTemplate)
        ensures
            t.body_text() == body@,
            t.children() == Map::<Seq<char>, NestedTemplate>::empty(),
    {
        let t = NestedTemplate { body: body.to_owned(), sub_templates: Vec::new() };
        assert(t.children() =~= Map::<Seq<char>, NestedTemplate>::empty());
        t
    }

    /// Index of the first child entry named `name`.
    fn find_child(&self, name: &String) -> (r: Option<usize>)
        ensures
            match r {
                Some(k) => {
                    &&& k < self.sub_templates@.len()
                    &&& self.sub_templates@[k as int].0@ == name@
                    &&& forall|j: int| 0 <= j < k ==> self.sub_templates@[j].0@ != name@
                },
                None => lookup(self.sub_templates@, name@) is None,
            },
    {
        let ghost v = self.sub_templates@;
        let mut k: usize = 0;
        assert(v.skip(0) =~= v);
        while k < self.sub_templates.len()
            invariant
                v == self.sub_templates@,
                k <= v.len(),
                lookup(v, name@) == lookup(v.skip(k as int), name@),
                forall|j: int| 0 <= j < k ==> v[j].0@ != name@,
            decreases v.len() - k,
        {
            if self.sub_templates[k].0 == *name {
                return Some(k);
            }
            assert(v.skip(k as int).drop_first() =~= v.skip(k + 1));
            k = k + 1;
        }
        None
    }

    /// Stores `template` as the child named `name`, replacing any child of that name.
    pub fn add_sub_template(&mut self, name: &str, template: NestedTemplate)
        ensures
            final(self).body_text() == old(self).body_text(),
            final(self).children() == old(self).children().insert(name@, template),
    {
        let key = name.to_owned();
        let ghost v = self.sub_templates@;
        let ghost x = (key, template);
        match self.find_child(&key) {
            Some(k) => {
                self.sub_templates.set(k, (key, template));
                assert forall|m: Seq<char>|
                    lookup(v.update(k as int, x), m) == if m == name@ {
                        Some(template)
                    } else {
                        lookup(v, m)
                    } by {
                    lemma_lookup_update(v, k as int, x, m);
                }
            },
            None => {
                self.sub_templates.push((key, template));
                assert forall|m: Seq<char>|
                    lookup(v.push(x), m) == if m == name@ {
                        Some(template)
                    } else {
                        lookup(v, m)
                    } by {
                    lemma_lookup_push(v, x, m);
                }
            },
        }
        assert(self.children() =~= old(self).children().insert(name@, template));
    }

    /// Renders the template: each placeholder of the body is replaced by the
    /// rendered child template of that name.
    pub fn render(&self) -> (r: Result<String, ParseError>)
        ensures
            match rendered(*self) {
                Ok(text) => r matches Ok(s) && s@ == text,
                Err(e) => r matches Err(err) && err@ == e,
            },
        decreases self,
    {
        let segs = match render_helper(self.body.as_str()) {
            Ok(v) => v,
            Err(e) => return Err(e),
        };
        let ghost sd = segs.deep_view();
        let mut out = String::new();
        let mut i: usize = 0;
        assert(sd.skip(0) =~= sd);
        assert(Seq::<char>::empty() + out@ =~= out@);
        while i < segs.len()
            invariant
                sd == segs.deep_view(),
                segments(self.body_text()) == Ok::<Seq<(bool, Seq<char>)>, Failure>(sd),
                i <= sd.len(),
                expand(*self, sd) == prefix_text(out@, expand(*self, sd.skip(i as int))),
            decreases sd.len() - i,
        {
            let seg = &segs[i];
            let ghost rest = sd.skip(i as int);
            assert(rest[0] == sd[i as int]);
            assert(rest.drop_first() =~= sd.skip(i + 1));
            let ghost before = out@;
            if seg.0 {
                match self.find_child(&seg.1) {
                    Some(k) => {
                        proof {
                            lemma_lookup_first(self.sub_templates@, k as int, seg.1@);
                            assert(decreases_to!(self.sub_templates => self.sub_templates[k as int]));
                        }
                        match self.sub_templates[k].1.render() {
                            Ok(s) => {
                                out.append(s.as_str());
                                assert(before + (s@ + expand(*self, sd.skip(i + 1))->Ok_0) =~= out@
                                    + expand(*self, sd.skip(i + 1))->Ok_0);
                            },
                            Err(e) => return Err(e),
                        }
                    },
                    None => return Err(ParseError::MissingTemplate(seg.1.clone())),
                }
            } else {
                out.append(seg.1.as_str());
                assert(before + (seg.1@ + expand(*self, sd.skip(i + 1))->Ok_0) =~= out@
                    + expand(*self, sd.skip(i + 1))->Ok_0);
            }
            i = i + 1;
        }
        assert(out@ + Seq::<char>::empty() =~= out@);
        Ok(out)
    }
}

proof fn lemma_lookup_first(v: Seq<(String, NestedTemplate)>, k: int, name: Seq<char>)
    requires
        0 <= k < v.len(),
        v[k].0@ == name,
        forall|j: int| 0 <= j < k ==> v[j].0@ != name,
    ensures
        lookup(v, name) == Some(v[k].1),
    decreases k,
{
    if k > 0 {
        lemma_lookup_first(v.drop_first(), k - 1, name);
    }
}

/// `s` holds no brace character.
pub open spec fn brace_free(s: Seq<char>) -> bool {
    forall|i: int| 0 <= i < s.len() ==> s[i] != '{' && s[i] != '}'
}

/// A body without braces tokenizes to a single literal segment: the body itself.
pub proof fn lemma_plain_body(s: Seq<char>)
    requires
        brace_free(s),
    ensures
        segments(s) == Ok::<Seq<(bool, Seq<char>)>, Failure>(seq![(false, s)]),
{
    assert(!exists|i: int| is_first_pair(s, '{', i));
    assert(!exists|i: int| is_first_pair(s, '}', i));
    assert(!exists|i: int| is_first(s, '{', i));
    assert(!exists|i: int| is_first(s, '}', i));
    assert(find_pair(s, '{') is None && find_pair(s, '}') is None);
    assert(find_char(s, '{') is None && find_char(s, '}') is None);
}

/// Rendering a template whose body has no braces gives the body back unchanged,
/// whatever children it has.
pub proof fn lemma_plain_render(t: NestedTemplate)
    requires
        brace_free(t.body_text()),
    ensures
        rendered(t) == Ok::<Seq<char>, Failure>(t.body_text()),
{
    let s = t.body_text();
    lemma_plain_body(s);
    let segs = seq![(false, s)];
    assert(segs.drop_first() =~= Seq::<(bool, Seq<char>)>::empty());
    assert(expand(t, segs.drop_first()) == Ok::<Seq<char>, Failure>(Seq::empty()));
    assert(s + Seq::<char>::empty() =~= s);
}

} // verus!
