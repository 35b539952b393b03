//! Cookies and the rule by which a jar takes in what a server issues.
//!
//! A cookie is known by its name alone: the domain and the path play no part
//! in telling two cookies apart. When a server issues cookies, each of them
//! enters the jar, and every cookie the jar held under one of their names
//! leaves it.

use vstd::prelude::*;

verus! {

/// One cookie: a name, a value, and the domain and path it belongs to, where
/// they are known.
#[derive(Debug, PartialEq, Eq)]
pub struct Cookie {
    pub name: String,
    pub value: String,
    pub domain: Option<String>,
    pub path: Option<String>,
}

/// What a [`Cookie`] stands for in contracts.
pub struct CookieView {
    pub name: Seq<char>,
    pub value: Seq<char>,
    pub domain: Option<Seq<char>>,
    pub path: Option<Seq<char>>,
}

/// The characters of an optional text.
pub open spec fn text_view(text: Option<String>) -> Option<Seq<char>> {
    match text {
        Some(s) => Some(s@),
        None => None,
    }
}

impl View for Cookie {
    type V = CookieView;

    open spec fn view(&self) -> CookieView {
        CookieView {
            name: self.name@,
            value: self.value@,
            domain: text_view(self.domain),
            path: text_view(self.path),
        }
    }
}

/// The cookies of a list, in its order.
pub open spec fn jar_view(cookies: Seq<Cookie>) -> Seq<CookieView> {
    cookies.map_values(|c: Cookie| c@)
}

/// Whether some cookie of the list bears the name.
pub open spec fn has_name(cookies: Seq<CookieView>, name: Seq<char>) -> bool {
    exists|i: int| 0 <= i < cookies.len() && #[trigger] cookies[i].name == name
}

/// The cookie with the domain filled in where it had none.
pub open spec fn with_domain(cookie: CookieView, domain: Seq<char>) -> CookieView {
    match cookie.domain {
        Some(_) => cookie,
        None => CookieView { domain: Some(domain), ..cookie },
    }
}

/// The issued cookies as they enter the jar: each with a domain.
pub open spec fn entering(issued: Seq<CookieView>, domain: Seq<char>) -> Seq<CookieView> {
    issued.map_values(|c: CookieView| with_domain(c, domain))
}

/// The cookies of the jar that stay: those whose name was not issued anew.
pub open spec fn staying(current: Seq<CookieView>, issued: Seq<CookieView>) -> Seq<CookieView> {
    current.filter(|c: CookieView| !has_name(issued, c.name))
}

/// The jar after a response. Where nothing was issued the jar is as it was.
/// Otherwise the issued cookies come first, in their order and with the
/// request's domain where they name none, and the cookies that stay follow in
/// their old order.
pub open spec fn merged(
    current: Seq<CookieView>,
    issued: Seq<CookieView>,
    domain: Seq<char>,
) -> Seq<CookieView> {
    if issued.len() == 0 {
        current
    } else {
        entering(issued, domain) + staying(current, issued)
    }
}

/// Whether no two cookies of the list share a name.
pub open spec fn names_distinct(cookies: Seq<CookieView>) -> bool {
    forall|i: int, j: int|
        0 <= i < cookies.len() && 0 <= j < cookies.len() && i != j ==> cookies[i].name
            != cookies[j].name
}

/// Whether every cookie of the list names a domain.
pub open spec fn domains_set(cookies: Seq<CookieView>) -> bool {
    forall|i: int| 0 <= i < cookies.len() ==> (#[trigger] cookies[i]).domain is Some
}

/// A copy of an optional text.
pub fn copy_text(text: &Option<String>) -> (out: Option<String>)
    ensures
        out == *text,
{
    match text {
        Some(s) => Some(s.clone()),
        None => None,
    }
}

impl Clone for Cookie {
    fn clone(&self) -> (out: Cookie)
        ensures
            out == *self,
    {
        Cookie {
            name: self.name.clone(),
            value: self.value.clone(),
            domain: copy_text(&self.domain),
            path: copy_text(&self.path),
        }
    }
}

impl Cookie {
    /// A copy of the cookie that names `domain` where the cookie names none.
    pub fn defaulted(&self, domain: &str) -> (out: Cookie)
        ensures
            out@ == with_domain(self@, domain@),
    {
        let filled = match &self.domain {
            Some(d) => Some(d.clone()),
            None => Some(domain.to_owned()),
        };
        Cookie {
            name: self.name.clone(),
            value: self.value.clone(),
            domain: filled,
            path: copy_text(&self.path),
        }
    }
}

/// The view of a list with one more cookie is the view of the list with one
/// more view.
proof fn lemma_jar_view_push(cookies: Seq<Cookie>, cookie: Cookie)
    ensures
        jar_view(cookies.push(cookie)) == jar_view(cookies).push(cookie@),
{
    assert(jar_view(cookies.push(cookie)) =~= jar_view(cookies).push(cookie@));
}

/// Whether a cookie of the list bears the name.
pub fn contains_name(cookies: &Vec<Cookie>, name: &String) -> (found: bool)
    ensures
        found == has_name(jar_view(cookies@), name@),
{
    let mut i: usize = 0;
    while i < cookies.len()
        invariant
            i <= cookies.len(),
            forall|k: int| 0 <= k < i ==> jar_view(cookies@)[k].name != name@,
        decreases cookies.len() - i,
    {
        if cookies[i].name == *name {
            assert(jar_view(cookies@)[i as int].name == name@);
            return true;
        }
        i += 1;
    }
    false
}

/// A copy of a list of cookies.
pub fn copy_cookies(cookies: &Vec<Cookie>) -> (out: Vec<Cookie>)
    ensures
        out@ == cookies@,
{
    let mut out: Vec<Cookie> = Vec::new();
    let mut i: usize = 0;
    while i < cookies.len()
        invariant
            i <= cookies.len(),
            out@ == cookies@.take(i as int),
        decreases cookies.len() - i,
    {
        out.push(cookies[i].clone());
        assert(cookies@.take(i + 1) == cookies@.take(i as int).push(cookies@[i as int]));
        i += 1;
    }
    assert(cookies@.take(cookies.len() as int) == cookies@);
    out
}

/// The jar after a response: `merged` of the jar before it, the cookies that
/// the response issued and the domain that the request went to.
pub fn merge_cookies(current: &Vec<Cookie>, issued: &Vec<Cookie>, domain: &str) -> (out: Vec<
    Cookie,
>)
    ensures
        jar_view(out@) == merged(jar_view(current@), jar_view(issued@), domain@),
{
    if issued.len() == 0 {
        return copy_cookies(current);
    }
    let ghost cur = jar_view(current@);
    let ghost iss = jar_view(issued@);
    let ghost keep = |c: CookieView| !has_name(iss, c.name);
    let mut out: Vec<Cookie> = Vec::new();
    let mut i: usize = 0;
    while i < issued.len()
        invariant
            i <= issued.len(),
            iss == jar_view(issued@),
            jar_view(out@) == entering(iss, domain@).take(i as int),
        decreases issued.len() - i,
    {
        let ghost before = out@;
        let entry = issued[i].defaulted(domain);
        let ghost added = entry;
        out.push(entry);
        proof {
            lemma_jar_view_push(before, added);
            assert(entering(iss, domain@).take(i + 1) =~= entering(iss, domain@).take(
                i as int,
            ).push(added@));
        }
        i += 1;
    }
    assert(entering(iss, domain@).take(issued.len() as int) == entering(iss, domain@));
    let mut j: usize = 0;
    proof {
        reveal(Seq::filter);
        assert(cur.take(0).filter(keep) == Seq::<CookieView>::empty());
        assert(jar_view(out@) =~= entering(iss, domain@) + cur.take(0).filter(keep));
    }
    while j < current.len()
        invariant
            j <= current.len(),
            cur == jar_view(current@),
            iss == jar_view(issued@),
            keep == (|c: CookieView| !has_name(iss, c.name)),
            jar_view(out@) == entering(iss, domain@) + cur.take(j as int).filter(keep),
        decreases current.len() - j,
    {
        let found = contains_name(issued, &current[j].name);
        proof {
            reveal(Seq::filter);
            let next = cur.take(j + 1);
            assert(next.drop_last() == cur.take(j as int));
            assert(next.last() == cur[j as int]);
            assert(keep(cur[j as int]) == !found);
        }
        if !found {
            let ghost before = out@;
            let entry = current[j].clone();
            let ghost added = entry;
            out.push(entry);
            proof {
                lemma_jar_view_push(before, added);
                assert(jar_view(out@) =~= entering(iss, domain@) + cur.take(j + 1).filter(keep));
            }
        }
        j += 1;
    }
    assert(cur.take(current.len() as int) == cur);
    out
}

/// Whether exactly one cookie of the list bears the name.
pub open spec fn named_once(cookies: Seq<CookieView>, name: Seq<char>) -> bool {
    exists|i: int|
        0 <= i < cookies.len() && #[trigger] cookies[i].name == name && forall|j: int|
            0 <= j < cookies.len() && j != i ==> (#[trigger] cookies[j]).name != name
}

/// A cookie of the list that bears the name; the only one where
/// `named_once` holds.
pub open spec fn entry_named(cookies: Seq<CookieView>, name: Seq<char>) -> CookieView {
    cookies[choose|i: int| 0 <= i < cookies.len() && #[trigger] cookies[i].name == name]
}

/// Every cookie that stays was in the jar, and none of them bears an issued
/// name.
proof fn lemma_staying_entries(current: Seq<CookieView>, issued: Seq<CookieView>)
    ensures
        forall|k: int|
            0 <= k < staying(current, issued).len() ==> !has_name(
                issued,
                (#[trigger] staying(current, issued)[k]).name,
            ) && current.contains(staying(current, issued)[k]),
{
    let keep = |c: CookieView| !has_name(issued, c.name);
    assert forall|k: int| 0 <= k < staying(current, issued).len() implies !has_name(
        issued,
        (#[trigger] staying(current, issued)[k]).name,
    ) && current.contains(staying(current, issued)[k]) by {
        let kept = current.filter(keep);
        current.lemma_filter_pred(keep, k);
        assert(kept.contains(kept[k]));
        current.lemma_filter_contains_rev(keep, kept[k]);
    }
}

/// Where every cookie of the jar bears an issued name, none stays.
pub(crate) proof fn lemma_none_stays(current: Seq<CookieView>, issued: Seq<CookieView>)
    requires
        forall|k: int| 0 <= k < current.len() ==> has_name(issued, (#[trigger] current[k]).name),
    ensures
        staying(current, issued) == Seq::<CookieView>::empty(),
    decreases current.len(),
{
    reveal(Seq::filter);
    if current.len() > 0 {
        assert(has_name(issued, current[current.len() - 1].name));
        lemma_none_stays(current.drop_last(), issued);
    }
}

/// Where no cookie of the jar bears an issued name, all stay.
proof fn lemma_all_stay(current: Seq<CookieView>, issued: Seq<CookieView>)
    requires
        forall|k: int| 0 <= k < current.len() ==> !has_name(issued, (#[trigger] current[k]).name),
    ensures
        staying(current, issued) == current,
    decreases current.len(),
{
    reveal(Seq::filter);
    if current.len() > 0 {
        assert(!has_name(issued, current[current.len() - 1].name));
        lemma_all_stay(current.drop_last(), issued);
        assert(current.drop_last().push(current.last()) =~= current);
    }
}

/// The cookies that stay keep distinct names where the jar had them.
proof fn lemma_staying_distinct(current: Seq<CookieView>, issued: Seq<CookieView>)
    requires
        names_distinct(current),
    ensures
        names_distinct(staying(current, issued)),
    decreases current.len(),
{
    reveal(Seq::filter);
    if current.len() > 0 {
        let rest = current.drop_last();
        let last = current.last();
        assert(names_distinct(rest)) by {
            assert forall|i: int, j: int|
                0 <= i < rest.len() && 0 <= j < rest.len() && i != j implies rest[i].name
                != rest[j].name by {
                assert(rest[i] == current[i] && rest[j] == current[j]);
            }
        }
        lemma_staying_distinct(rest, issued);
        lemma_staying_entries(rest, issued);
        let kept = staying(rest, issued);
        if !has_name(issued, last.name) {
            let all = kept.push(last);
            assert forall|i: int, j: int|
                0 <= i < all.len() && 0 <= j < all.len() && i != j implies all[i].name
                != all[j].name by {
                if i < kept.len() && j < kept.len() {
                    assert(all[i] == kept[i] && all[j] == kept[j]);
                } else {
                    let k = if i < kept.len() { i } else { j };
                    assert(rest.contains(kept[k]));
                    let w = choose|w: int| 0 <= w < rest.len() && rest[w] == kept[k];
                    assert(current[w] == kept[k]);
                    assert(current[current.len() - 1] == last);
                }
            }
        }
    }
}

/// A response that issues no cookie leaves the jar exactly as it was.
pub proof fn law_nothing_issued(current: Seq<CookieView>, domain: Seq<char>)
    ensures
        merged(current, Seq::<CookieView>::empty(), domain) == current,
{
}

/// Where a name is in the jar and was issued once, the jar afterwards holds
/// exactly one cookie of that name: the issued one, with the request's domain
/// where it names none, and so the issued one itself where it names a domain.
pub proof fn law_issued_takes_precedence(
    current: Seq<CookieView>,
    issued: Seq<CookieView>,
    domain: Seq<char>,
    name: Seq<char>,
)
    requires
        has_name(current, name),
        named_once(issued, name),
    ensures
        named_once(merged(current, issued, domain), name),
        entry_named(merged(current, issued, domain), name) == with_domain(
            entry_named(issued, name),
            domain,
        ),
        entry_named(issued, name).domain is Some ==> entry_named(
            merged(current, issued, domain),
            name,
        ) == entry_named(issued, name),
{
    let after = merged(current, issued, domain);
    let i = choose|i: int|
        0 <= i < issued.len() && #[trigger] issued[i].name == name && forall|j: int|
            0 <= j < issued.len() && j != i ==> (#[trigger] issued[j]).name != name;
    lemma_staying_entries(current, issued);
    assert(has_name(issued, name));
    assert(after[i] == with_domain(issued[i], domain));
    assert forall|k: int| 0 <= k < after.len() && k != i implies (#[trigger] after[k]).name
        != name by {
        if k < issued.len() {
            assert(after[k] == with_domain(issued[k], domain));
        } else {
            assert(after[k] == staying(current, issued)[k - issued.len()]);
        }
    }
    assert(after[i].name == name);
    let a = choose|a: int| 0 <= a < after.len() && #[trigger] after[a].name == name;
    assert(a == i);
    let b = choose|b: int| 0 <= b < issued.len() && #[trigger] issued[b].name == name;
    assert(b == i);
}

/// An issued cookie that names no domain is in the jar afterwards with the
/// domain that the request went to, at the place it was issued at and
/// otherwise unchanged.
pub proof fn law_domain_defaults(
    current: Seq<CookieView>,
    issued: Seq<CookieView>,
    domain: Seq<char>,
    i: int,
)
    requires
        0 <= i < issued.len(),
        issued[i].domain is None,
    ensures
        i < merged(current, issued, domain).len(),
        merged(current, issued, domain)[i] == (CookieView { domain: Some(domain), ..issued[i] }),
{
}

/// Taking in the same issued cookies a second time, for the same domain,
/// changes nothing.
pub proof fn law_merge_idempotent(
    current: Seq<CookieView>,
    issued: Seq<CookieView>,
    domain: Seq<char>,
)
    ensures
        merged(merged(current, issued, domain), issued, domain) == merged(
            current,
            issued,
            domain,
        ),
{
    if issued.len() > 0 {
        let keep = |c: CookieView| !has_name(issued, c.name);
        let front = entering(issued, domain);
        let back = staying(current, issued);
        assert forall|k: int| 0 <= k < front.len() implies has_name(
            issued,
            (#[trigger] front[k]).name,
        ) by {
            assert(issued[k].name == front[k].name);
        }
        lemma_none_stays(front, issued);
        lemma_staying_entries(current, issued);
        lemma_all_stay(back, issued);
        Seq::filter_distributes_over_add(front, back, keep);
        assert(staying(front + back, issued) =~= back);
    }
}

/// Where no two cookies of the jar share a name and no two issued cookies do,
/// no two cookies of the jar afterwards do.
pub proof fn law_names_stay_distinct(
    current: Seq<CookieView>,
    issued: Seq<CookieView>,
    domain: Seq<char>,
)
    requires
        names_distinct(current),
        names_distinct(issued),
    ensures
        names_distinct(merged(current, issued, domain)),
{
    if issued.len() > 0 {
        let after = merged(current, issued, domain);
        let back = staying(current, issued);
        lemma_staying_distinct(current, issued);
        lemma_staying_entries(current, issued);
        assert forall|i: int, j: int|
            0 <= i < after.len() && 0 <= j < after.len() && i != j implies after[i].name
            != after[j].name by {
            if i < issued.len() && j < issued.len() {
                assert(after[i].name == issued[i].name && after[j].name == issued[j].name);
            } else if i >= issued.len() && j >= issued.len() {
                assert(after[i] == back[i - issued.len()] && after[j] == back[j - issued.len()]);
            } else {
                let (a, b) = if i < issued.len() { (i, j) } else { (j, i) };
                assert(after[a].name == issued[a].name);
                assert(after[b] == back[b - issued.len()]);
                assert(!has_name(issued, back[b - issued.len()].name));
            }
        }
    }
}

/// Where every cookie of the jar names a domain, every cookie of the jar
/// afterwards does; and a cookie that was issued names one in any case.
pub proof fn law_domains_stay_set(
    current: Seq<CookieView>,
    issued: Seq<CookieView>,
    domain: Seq<char>,
)
    ensures
        domains_set(current) ==> domains_set(merged(current, issued, domain)),
        domains_set(entering(issued, domain)),
{
    lemma_staying_entries(current, issued);
    if domains_set(current) && issued.len() > 0 {
        let after = merged(current, issued, domain);
        let back = staying(current, issued);
        assert forall|k: int| 0 <= k < after.len() implies (#[trigger] after[k]).domain is Some by {
            if k >= issued.len() {
                assert(after[k] == back[k - issued.len()]);
                assert(current.contains(back[k - issued.len()]));
            }
        }
    }
}

} // verus!
