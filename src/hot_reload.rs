use vstd::prelude::*;
use vstd::string::*;

verus! {

/// Script appended to a page so that it reloads when the server signals a
/// rebuild.
pub const HOT_RELOAD_SCRIPT: &'static str = r#"<!--Inserted hotreload script--> <script type="module">try {
			console.info("initalised hotreaload");
			await fetch("__reload")
		} catch (e){
			console.warn("Failed to wait for hotreload.");
		}
		window.location.reload(true);
		</script>"#;

/// The first position from `i` on where `pat` occurs in `s`.
pub open spec fn find_from(s: Seq<char>, pat: Seq<char>, i: int) -> Option<int>
    decreases s.len() + 1 - i,
{
    if i < 0 || i + pat.len() > s.len() {
        None
    } else if s.subrange(i, i + pat.len()) == pat {
        Some(i)
    } else {
        find_from(s, pat, i + 1)
    }
}

proof fn lemma_find_from_some(s: Seq<char>, pat: Seq<char>, k: int)
    ensures
        find_from(s, pat, k) matches Some(i) ==> k <= i && i + pat.len() <= s.len() && s.subrange(
            i,
            i + pat.len(),
        ) == pat,
    decreases s.len() + 1 - k,
{
    if !(k < 0 || k + pat.len() > s.len()) && s.subrange(k, k + pat.len()) != pat {
        lemma_find_from_some(s, pat, k + 1);
    }
}

/// `s` with the first occurrence of `pat` cut out, if there is one.
pub open spec fn without_first(s: Seq<char>, pat: Seq<char>) -> Seq<char> {
    match find_from(s, pat, 0) {
        Some(i) => s.subrange(0, i) + s.subrange(i + pat.len(), s.len() as int),
        None => s,
    }
}

/// The page with its closing body and html tags removed and the reload script
/// appended.
pub open spec fn hot_reload_page(body: Seq<char>) -> Seq<char> {
    without_first(without_first(body, "</body>"@), "</html>"@) + HOT_RELOAD_SCRIPT@
}

fn chars_of(s: &str) -> (v: Vec<char>)
    ensures
        v@ == s@,
{
    let n = s.unicode_len();
    let mut v: Vec<char> = Vec::new();
    let mut i: usize = 0;
    while i < n
        invariant
            n == s@.len(),
            i <= n,
            v@ == s@.subrange(0, i as int),
        decreases n - i,
    {
        v.push(s.get_char(i));
        proof {
            assert(v@ =~= s@.subrange(0, i + 1));
        }
        i += 1;
    }
    proof {
        assert(v@ =~= s@);
    }
    v
}

/// Whether `pat` occurs in `s` at `i`.
fn occurs_at(s: &Vec<char>, pat: &Vec<char>, i: usize) -> (b: bool)
    requires
        i + pat@.len() <= s@.len(),
    ensures
        b == (s@.subrange(i as int, i + pat@.len()) == pat@),
{
    let _n = s.len();
    let mut k: usize = 0;
    while k < pat.len()
        invariant
            i + pat@.len() <= s@.len(),
            s@.len() <= usize::MAX,
            k <= pat@.len(),
            forall|j: int| 0 <= j < k ==> s@[i + j] == pat@[j],
        decreases pat@.len() - k,
    {
        if s[i + k] != pat[k] {
            assert(s@.subrange(i as int, i + pat@.len())[k as int] != pat@[k as int]);
            return false;
        }
        k += 1;
    }
    assert(s@.subrange(i as int, i + pat@.len()) =~= pat@);
    true
}

/// The first position where `pat` occurs in `s`.
fn find_chars(s: &Vec<char>, pat: &Vec<char>) -> (r: Option<usize>)
    ensures
        match r {
            Some(i) => find_from(s@, pat@, 0) == Some(i as int),
            None => find_from(s@, pat@, 0) is None,
        },
{
    let n = s.len();
    let m = pat.len();
    if m > n {
        return None;
    }
    let mut i: usize = 0;
    while i <= n - m
        invariant
            n == s@.len(),
            m == pat@.len(),
            m <= n,
            find_from(s@, pat@, 0) == find_from(s@, pat@, i as int),
        decreases n + 1 - i,
    {
        if occurs_at(s, pat, i) {
            return Some(i);
        }
        if i == n - m {
            assert(find_from(s@, pat@, i + 1) is None);
            return None;
        }
        i += 1;
    }
    None
}

/// `body` with the first occurrence of `pat` cut out, if there is one.
fn remove_first(body: String, pat: &str) -> (r: String)
    ensures
        r@ == without_first(body@, pat@),
{
    let chars = chars_of(body.as_str());
    let pattern = chars_of(pat);
    match find_chars(&chars, &pattern) {
        Some(i) => {
            proof {
                lemma_find_from_some(chars@, pattern@, 0);
            }
            let n = chars.len();
            let m = pattern.len();
            let mut out = body.as_str().substring_char(0, i).to_owned();
            out.append(body.as_str().substring_char(i + m, n));
            out
        },
        None => body,
    }
}

/// Makes a page reload itself when the server signals a rebuild: the first
/// `</body>` and the first `</html>` are cut out so that the script appended
/// after them still runs.
pub fn add_hot_reload_javascript(body: String) -> (r: String)
    ensures
        r@ == hot_reload_page(body@),
{
    let mut body = remove_first(body, "</body>");
    body = remove_first(body, "</html>");
    body.append(HOT_RELOAD_SCRIPT);
    body
}

} // verus!
