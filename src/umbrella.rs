use vstd::prelude::*;
use vstd::string::*;

verus! {

/// The directive that pulls the library header `h` into the umbrella header.
pub open spec fn directive(h: Seq<char>) -> Seq<char> {
    "#include <mbedtls/"@ + h + ">"@
}

/// The umbrella header for the headers `hs`: one directive per line, in order.
pub open spec fn umbrella_text(hs: Seq<Seq<char>>) -> Seq<char>
    decreases hs.len(),
{
    if hs.len() == 0 {
        Seq::empty()
    } else {
        directive(hs[0]) + seq!['\n'] + umbrella_text(hs.drop_first())
    }
}

/// The length of the first line of `t`, its newline not counted.
pub open spec fn line_len(t: Seq<char>) -> nat
    decreases t.len(),
{
    if t.len() == 0 || t[0] == '\n' {
        0
    } else {
        1 + line_len(t.drop_first())
    }
}

/// The lines of `t`, each without its newline; a last line without a newline
/// counts too.
pub open spec fn lines(t: Seq<char>) -> Seq<Seq<char>>
    decreases t.len(),
{
    if t.len() == 0 {
        Seq::empty()
    } else if line_len(t) < t.len() {
        seq![t.subrange(0, line_len(t) as int)] + lines(t.subrange(line_len(t) as int + 1, t.len() as int))
    } else {
        seq![t]
    }
}

/// `s` holds no newline.
pub open spec fn single_line(s: Seq<char>) -> bool {
    forall|i: int| 0 <= i < s.len() ==> s[i] != '\n'
}

proof fn lemma_line_len(d: Seq<char>, rest: Seq<char>)
    requires
        single_line(d),
    ensures
        line_len(d + seq!['\n'] + rest) == d.len(),
    decreases d.len(),
{
    let t = d + seq!['\n'] + rest;
    if d.len() > 0 {
        assert(t.drop_first() =~= d.drop_first() + seq!['\n'] + rest);
        lemma_line_len(d.drop_first(), rest);
    }
}

proof fn lemma_directive_single_line(h: Seq<char>)
    requires
        single_line(h),
    ensures
        single_line(directive(h)),
{
    reveal_strlit("#include <mbedtls/");
    reveal_strlit(">");
    let d = directive(h);
    let a = "#include <mbedtls/"@;
    assert forall|i: int| 0 <= i < d.len() implies d[i] != '\n' by {
        if i < a.len() {
            assert(d[i] == a[i]);
        } else if i < a.len() + h.len() {
            assert(d[i] == h[i - a.len()]);
        } else {
            assert(d[i] == ">"@[i - a.len() - h.len()]);
        }
    }
}

/// Read back line by line, the umbrella header gives one directive per header
/// name, in the order of the names, none added and none lost; the names are
/// taken to hold no newline.
pub proof fn lemma_umbrella_lines(hs: Seq<Seq<char>>)
    requires
        forall|k: int| 0 <= k < hs.len() ==> single_line(#[trigger] hs[k]),
    ensures
        lines(umbrella_text(hs)) == hs.map_values(|h: Seq<char>| directive(h)),
    decreases hs.len(),
{
    if hs.len() == 0 {
        assert(hs.map_values(|h: Seq<char>| directive(h)) =~= Seq::<Seq<char>>::empty());
    } else {
        let d = directive(hs[0]);
        let rest = umbrella_text(hs.drop_first());
        let t = d + seq!['\n'] + rest;
        lemma_directive_single_line(hs[0]);
        lemma_line_len(d, rest);
        assert(t.subrange(0, d.len() as int) =~= d);
        assert(t.subrange(d.len() as int + 1, t.len() as int) =~= rest);
        assert forall|k: int| 0 <= k < hs.drop_first().len() implies single_line(
            #[trigger] hs.drop_first()[k],
        ) by {
            assert(hs.drop_first()[k] == hs[k + 1]);
        }
        lemma_umbrella_lines(hs.drop_first());
        assert(hs.map_values(|h: Seq<char>| directive(h)) =~= seq![d] + hs.drop_first().map_values(
            |h: Seq<char>| directive(h),
        ));
    }
}

proof fn lemma_umbrella_push(hs: Seq<Seq<char>>, h: Seq<char>)
    ensures
        umbrella_text(hs.push(h)) == umbrella_text(hs) + directive(h) + seq!['\n'],
    decreases hs.len(),
{
    if hs.len() == 0 {
        assert(hs.push(h).drop_first() =~= Seq::<Seq<char>>::empty());
        assert(hs.push(h)[0] == h);
        assert(umbrella_text(Seq::<Seq<char>>::empty()) == Seq::<char>::empty());
        assert(umbrella_text(hs) == Seq::<char>::empty());
        assert(umbrella_text(hs.push(h)) =~= directive(h) + seq!['\n']);
    } else {
        assert(hs.push(h).drop_first() =~= hs.drop_first().push(h));
        lemma_umbrella_push(hs.drop_first(), h);
        assert(umbrella_text(hs.push(h)) =~= umbrella_text(hs) + directive(h) + seq!['\n']);
    }
}

/// The text of the umbrella header for the enabled library headers `headers`,
/// which are given in the order the library needs them.
pub fn umbrella_header(headers: &Vec<String>) -> (r: String)
    ensures
        r@ == umbrella_text(headers@.map_values(|h: String| h@)),
{
    let mut out = String::new();
    let mut i: usize = 0;
    let ghost names = headers@.map_values(|h: String| h@);
    assert(names.subrange(0, 0) =~= Seq::<Seq<char>>::empty());
    while i < headers.len()
        invariant
            i <= headers@.len(),
            names == headers@.map_values(|h: String| h@),
            out@ == umbrella_text(names.subrange(0, i as int)),
        decreases headers@.len() - i,
    {
        proof {
            lemma_umbrella_push(names.subrange(0, i as int), headers@[i as int]@);
            assert(names.subrange(0, i + 1) =~= names.subrange(0, i as int).push(
                headers@[i as int]@,
            ));
        }
        out.append("#include <mbedtls/");
        out.append(headers[i].as_str());
        out.append(">\n");
        proof {
            reveal_strlit(">\n");
            reveal_strlit(">");
            assert(">\n"@ =~= ">"@ + seq!['\n']);
        }
        i = i + 1;
    }
    assert(names.subrange(0, headers@.len() as int) =~= names);
    out
}

} // verus!
