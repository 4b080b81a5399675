//! Choosing the system proxy: reading the Windows `ProxyServer` setting or
//! the proxy environment variables, and whether a proxy is required.
use vstd::prelude::*;

use crate::text::{chars_of, is_blank, push_str, str_eq, string_of, trim, trim_string, lower_seq};

verus! {

pub struct ProxyResolution {
    pub url: String,
    pub display: String,
}

/// The proxy URL for an endpoint: the trimmed value where it has a scheme,
/// else `socks5://` (for `socks`/`socks5`) or `http://` before it.
pub open spec fn proxy_url(kind: Seq<char>, value: Seq<char>) -> Result<Seq<char>, Seq<char>> {
    let v = trim(value);
    if v.len() == 0 {
        Err("系统代理地址为空"@)
    } else if crate::text::find_from(v, "://"@, 0) >= 0 {
        Ok(v)
    } else if kind == "socks"@ || kind == "socks5"@ {
        Ok("socks5://"@ + v)
    } else {
        Ok("http://"@ + v)
    }
}

pub fn normalize_proxy_url(kind: &str, value: &str) -> (r: Result<String, String>)
    ensures
        match r {
            Ok(u) => proxy_url(kind@, value@) == Ok::<Seq<char>, Seq<char>>(u@),
            Err(e) => proxy_url(kind@, value@) == Err::<Seq<char>, Seq<char>>(e@),
        },
{
    let v = trim_string(value);
    let vv = chars_of(v.as_str());
    if vv.len() == 0 {
        return Err("系统代理地址为空".to_string());
    }
    let sep = chars_of("://");
    proof {
        crate::text::lemma_find_from(vv@, sep@, 0);
    }
    if let Some(_) = crate::text::find_from_exec(&vv, &sep, 0) {
        return Ok(v);
    }
    let mut out = if str_eq(kind, "socks") || str_eq(kind, "socks5") {
        "socks5://".to_string()
    } else {
        "http://".to_string()
    };
    push_str(&mut out, v.as_str());
    Ok(out)
}

/// The parts of a `ProxyServer` value, each trimmed, empty ones dropped:
/// `scheme=address` entries keyed by the lowercased scheme, other parts as
/// the default endpoint.
pub open spec fn proxy_parts(raw: Seq<char>) -> Seq<Seq<char>> {
    crate::text::split(raw, ";"@).map_values(|p: Seq<char>| trim(p)).filter(|p: Seq<char>| p.len() > 0)
}

/// The address of the last part with this scheme.
pub open spec fn endpoint_for(parts: Seq<Seq<char>>, scheme: Seq<char>, n: int) -> Option<Seq<char>>
    decreases n,
{
    if n <= 0 || n > parts.len() {
        None
    } else {
        let p = parts[n - 1];
        let e = crate::text::find_char_from(p, '=', 0);
        if e < p.len() && lower_seq(trim(p.take(e))) == scheme {
            Some(trim(p.skip(e + 1)))
        } else {
            endpoint_for(parts, scheme, n - 1)
        }
    }
}

/// The last part without a scheme.
pub open spec fn default_endpoint(parts: Seq<Seq<char>>, n: int) -> Option<Seq<char>>
    decreases n,
{
    if n <= 0 || n > parts.len() {
        None
    } else {
        let p = parts[n - 1];
        if crate::text::find_char_from(p, '=', 0) >= p.len() {
            Some(p)
        } else {
            default_endpoint(parts, n - 1)
        }
    }
}

/// The endpoint used: `https`, else `http`, `socks`, `socks5`, else the
/// default one (as `http`).
pub open spec fn selected_endpoint(parts: Seq<Seq<char>>) -> Option<(Seq<char>, Seq<char>)> {
    let n = parts.len() as int;
    match endpoint_for(parts, "https"@, n) {
        Some(v) => Some(("https"@, v)),
        None => match endpoint_for(parts, "http"@, n) {
            Some(v) => Some(("http"@, v)),
            None => match endpoint_for(parts, "socks"@, n) {
                Some(v) => Some(("socks"@, v)),
                None => match endpoint_for(parts, "socks5"@, n) {
                    Some(v) => Some(("socks5"@, v)),
                    None => match default_endpoint(parts, n) {
                        Some(v) => Some(("http"@, v)),
                        None => None,
                    },
                },
            },
        },
    }
}

fn trimmed_parts(raw: &str) -> (r: Vec<Vec<char>>)
    ensures
        r@.map_values(|v: Vec<char>| v@) == proxy_parts(raw@),
{
    let v = chars_of(raw);
    let sep = chars_of(";");
    proof {
        reveal_strlit(";");
    }
    let pieces = crate::text::split_exec(&v, &sep);
    let ghost pv = pieces@.map_values(|x: Vec<char>| x@);
    let mut out: Vec<Vec<char>> = Vec::new();
    let mut i: usize = 0;
    assert(pv.map_values(|p: Seq<char>| trim(p)).take(0).filter(|p: Seq<char>| p.len() > 0) =~= seq![]);
    while i < pieces.len()
        invariant
            i <= pieces.len(),
            pv == pieces@.map_values(|x: Vec<char>| x@),
            pv == crate::text::split(v@, sep@),
            out@.map_values(|x: Vec<char>| x@) == pv.map_values(|p: Seq<char>| trim(p)).take(i as int).filter(
                |p: Seq<char>| p.len() > 0,
            ),
        decreases pieces.len() - i,
    {
        let t = crate::text::trim_vec(&pieces[i], crate::text::CharClass::Whitespace);
        let ghost tm = pv.map_values(|p: Seq<char>| trim(p));
        assert(tm.take(i + 1) =~= tm.take(i as int).push(t@));
        proof {
            tm.take(i as int).lemma_filter_push(t@, |p: Seq<char>| p.len() > 0);
        }
        let ghost before = out@.map_values(|x: Vec<char>| x@);
        if t.len() > 0 {
            out.push(t);
            assert(out@.map_values(|x: Vec<char>| x@) =~= before.push(t@));
        }
        i += 1;
    }
    assert(pv.map_values(|p: Seq<char>| trim(p)).take(pieces.len() as int) =~= pv.map_values(|p: Seq<char>| trim(p)));
    out
}

fn endpoint_for_exec(parts: &Vec<Vec<char>>, scheme: &str) -> (r: Option<Vec<char>>)
    ensures
        match r {
            Some(v) => endpoint_for(parts@.map_values(|x: Vec<char>| x@), scheme@, parts.len() as int) == Some(v@),
            None => endpoint_for(parts@.map_values(|x: Vec<char>| x@), scheme@, parts.len() as int) is None,
        },
{
    let ghost pv = parts@.map_values(|x: Vec<char>| x@);
    let sv = chars_of(scheme);
    let mut n: usize = parts.len();
    while n > 0
        invariant
            n <= parts.len(),
            pv == parts@.map_values(|x: Vec<char>| x@),
            sv@ == scheme@,
            endpoint_for(pv, scheme@, parts.len() as int) == endpoint_for(pv, scheme@, n as int),
        decreases n,
    {
        let p = &parts[n - 1];
        assert(pv[n - 1] == p@);
        proof {
            crate::text::lemma_find_char_from(p@, '=', 0);
        }
        let e = crate::text::find_char_from_exec(p, '=', 0);
        if e < p.len() {
            let head = crate::text::sub_vec(p, 0, e);
            assert(head@ == p@.take(e as int));
            let ht = crate::text::trim_vec(&head, crate::text::CharClass::Whitespace);
            let hl = crate::text::lower_vec(&ht);
            if crate::text::eq_chars(&hl, &sv) {
                let tail = crate::text::sub_vec(p, e + 1, p.len());
                assert(tail@ == p@.skip(e + 1));
                return Some(crate::text::trim_vec(&tail, crate::text::CharClass::Whitespace));
            }
        }
        n -= 1;
    }
    None
}

fn default_endpoint_exec(parts: &Vec<Vec<char>>) -> (r: Option<Vec<char>>)
    ensures
        match r {
            Some(v) => default_endpoint(parts@.map_values(|x: Vec<char>| x@), parts.len() as int) == Some(v@),
            None => default_endpoint(parts@.map_values(|x: Vec<char>| x@), parts.len() as int) is None,
        },
{
    let ghost pv = parts@.map_values(|x: Vec<char>| x@);
    let mut n: usize = parts.len();
    while n > 0
        invariant
            n <= parts.len(),
            pv == parts@.map_values(|x: Vec<char>| x@),
            default_endpoint(pv, parts.len() as int) == default_endpoint(pv, n as int),
        decreases n,
    {
        let p = &parts[n - 1];
        assert(pv[n - 1] == p@);
        if crate::text::find_char_from_exec(p, '=', 0) >= p.len() {
            return Some(crate::text::sub_vec(p, 0, p.len()));
        }
        n -= 1;
    }
    None
}

/// The proxy a `ProxyServer` setting names, if any.
pub open spec fn windows_proxy(raw: Seq<char>) -> Result<Option<(Seq<char>, Seq<char>)>, Seq<char>> {
    match selected_endpoint(proxy_parts(raw)) {
        None => Ok(None),
        Some((kind, value)) => match proxy_url(kind, value) {
            Err(e) => Err(e),
            Ok(u) => Ok(Some((u, "Windows 系统代理 "@ + value))),
        },
    }
}

pub fn parse_windows_proxy_server(raw: &str) -> (r: Result<Option<ProxyResolution>, String>)
    ensures
        match r {
            Ok(Some(p)) => windows_proxy(raw@) == Ok::<Option<(Seq<char>, Seq<char>)>, Seq<char>>(Some((p.url@, p.display@))),
            Ok(None) => windows_proxy(raw@) == Ok::<Option<(Seq<char>, Seq<char>)>, Seq<char>>(None),
            Err(e) => windows_proxy(raw@) == Err::<Option<(Seq<char>, Seq<char>)>, Seq<char>>(e@),
        },
{
    let parts = trimmed_parts(raw);
    let chosen: Option<(&str, Vec<char>)> = match endpoint_for_exec(&parts, "https") {
        Some(v) => Some(("https", v)),
        None => match endpoint_for_exec(&parts, "http") {
            Some(v) => Some(("http", v)),
            None => match endpoint_for_exec(&parts, "socks") {
                Some(v) => Some(("socks", v)),
                None => match endpoint_for_exec(&parts, "socks5") {
                    Some(v) => Some(("socks5", v)),
                    None => match default_endpoint_exec(&parts) {
                        Some(v) => Some(("http", v)),
                        None => None,
                    },
                },
            },
        },
    };
    match chosen {
        None => Ok(None),
        Some((kind, value)) => {
            let vs = string_of(&value);
            match normalize_proxy_url(kind, vs.as_str()) {
                Err(e) => Err(e),
                Ok(url) => {
                    let mut display = "Windows 系统代理 ".to_string();
                    push_str(&mut display, vs.as_str());
                    Ok(Some(ProxyResolution { url, display }))
                },
            }
        },
    }
}

/// Variable `i` has a value that is not blank, gives this URL and display
/// text, and no earlier one has such a value.
pub open spec fn env_pick(vars: Seq<(String, Option<String>)>, i: int, url: Seq<char>, display: Seq<char>) -> bool {
    &&& vars[i].1 matches Some(v) && trim(v@).len() > 0 && url == trim(v@) && display == "环境变量 "@ + vars[i].0@
        + "="@ + trim(v@)
    &&& forall|j: int| 0 <= j < i ==> !((#[trigger] vars[j]).1 matches Some(w) && trim(w@).len() > 0)
}

/// What `proxy_from_env` answers for these variables: the first variable
/// whose value is not blank, or nothing when every value is blank or unset.
pub open spec fn env_answer(vars: Seq<(String, Option<String>)>, r: Option<ProxyResolution>) -> bool {
    match r {
        Some(p) => exists|i: int| 0 <= i < vars.len() && #[trigger] env_pick(vars, i, p.url@, p.display@),
        None => forall|j: int| 0 <= j < vars.len() ==> !((#[trigger] vars[j]).1 matches Some(w) && trim(w@).len() > 0),
    }
}

/// The first proxy variable with a value that is not blank.
pub fn proxy_from_env(vars: &Vec<(String, Option<String>)>) -> (r: Option<ProxyResolution>)
    ensures
        env_answer(vars@, r),
{
    let mut i: usize = 0;
    while i < vars.len()
        invariant
            i <= vars.len(),
            forall|j: int| 0 <= j < i ==> !((#[trigger] vars@[j]).1 matches Some(w) && trim(w@).len() > 0),
        decreases vars.len() - i,
    {
        match &vars[i].1 {
            Some(v) => {
                if !is_blank(v.as_str()) {
                    let t = trim_string(v.as_str());
                    let mut display = "环境变量 ".to_string();
                    push_str(&mut display, vars[i].0.as_str());
                    push_str(&mut display, "=");
                    push_str(&mut display, t.as_str());
                    assert(display@ =~= "环境变量 "@ + vars@[i as int].0@ + "="@ + trim(v@));
                    let r = Some(ProxyResolution { url: t, display });
                    assert(env_pick(vars@, i as int, r->0.url@, r->0.display@));
                    return r;
                }
            },
            None => {},
        }
        i += 1;
    }
    None
}

pub const PROXY_REQUIRED: &'static str =
    "已勾选“使用代理”，但未检测到系统代理。请先在 Windows 代理设置中启用代理，或取消勾选。";

/// The proxy a client uses: none without `use_proxy`; with it, the system
/// proxy, which must exist.
pub fn proxy_choice(use_proxy: bool, resolved: Result<Option<ProxyResolution>, String>) -> (r: Result<
    Option<ProxyResolution>,
    String,
>)
    ensures
        !use_proxy ==> r matches Ok(None),
        use_proxy ==> match resolved {
            Err(e) => r == Err::<Option<ProxyResolution>, String>(e),
            Ok(None) => r matches Err(e) && e@ == PROXY_REQUIRED@,
            Ok(Some(p)) => r == Ok::<Option<ProxyResolution>, String>(Some(p)),
        },
{
    if !use_proxy {
        return Ok(None);
    }
    match resolved {
        Err(e) => Err(e),
        Ok(None) => Err(PROXY_REQUIRED.to_string()),
        Ok(Some(p)) => Ok(Some(p)),
    }
}

} // verus!
