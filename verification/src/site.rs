//! The site: its routes, its handlers and its per-request dispatch.
//!
//! Handlers are pure: each takes the request's captured parameters,
//! query pairs and body, may touch the shared hit counter, and returns
//! a response value. Responses that need a collaborator outside this
//! crate (a file to stream, a template to render) carry the data that
//! collaborator needs; the process edge does the streaming and
//! rendering and nothing else.

use vstd::prelude::*;
use vstd::string::StrSliceExecFns;
use vstd::string::StringSliceAdditionalSpecFns;
use vstd::utf8::valid_utf8;
use crate::bytes::append_bytes;
use crate::counter::HitCount;
use crate::form::{
    decode, spec_decode_fields, values_view, DecodeError, Field, FieldType, FieldValue,
    FormSchema, SpecValue,
};
use crate::router::{
    captures, first_match, has_conflict, path_parts, path_to_parts, parse_pairs, pattern_eq,
    seg_shape_eq, spec_lookup, spec_pairs, Method, ParamMap, Route, RouteTable, Segment,
    StartupConflict,
};

verus! {

/// The handlers this site binds to its routes.
#[derive(Clone, Copy, PartialEq, Eq, Structural, Debug)]
pub enum Handler {
    /// `GET /`: the static home page.
    Index,
    /// `GET /hello`: a fixed greeting.
    Hello,
    /// `GET /hello/<name>`: a templated greeting for `name`.
    HelloName,
    /// `GET /about`: the templated about page.
    About,
    /// `GET /form`: the static form page.
    FormPage,
    /// `POST /form`: decode the submitted body against the schema.
    FormSubmit,
    /// `GET /visitors`: record a visit and announce the new count.
    Visitors,
    /// `GET /count`: the current count, without recording a visit.
    Count,
}

/// The context record handed to the template renderer, an excluded
/// collaborator: this core fills it and never inspects rendering.
#[derive(Debug)]
pub struct TemplateContext {
    pub title: Vec<u8>,
    pub name: Option<Vec<u8>>,
    pub items: Vec<Vec<u8>>,
    pub parent: Vec<u8>,
}

/// A response value. The dispatcher's caller alone turns one into wire
/// bytes; variants that need an outside collaborator carry what it needs.
#[derive(Debug)]
pub enum Response {
    /// Plain text.
    Text(Vec<u8>),
    /// An HTML fragment.
    Html(Vec<u8>),
    /// Redirect to the carried path.
    Redirect(Vec<u8>),
    /// Render the named template with the carried context.
    Page(Vec<u8>, TemplateContext),
    /// Stream the file at the carried path.
    File(Vec<u8>),
    /// The catch-handler's page naming the unmatched request path.
    NotFoundPage(Vec<u8>),
    /// The minimal fallback when no catch-handler is registered.
    NotFoundText(Vec<u8>),
}

/// The base-10 digits of `n`, most significant first.
pub open spec fn dec_bytes(n: nat) -> Seq<u8>
    decreases n,
{
    if n < 10 {
        seq![(48 + n) as u8]
    } else {
        dec_bytes(n / 10).push((48 + n % 10) as u8)
    }
}

/// Renders `n` in base 10.
pub fn u64_to_dec(n: u64) -> (r: Vec<u8>)
    ensures
        r@ == dec_bytes(n as nat),
    decreases n,
{
    if n < 10 {
        let mut v: Vec<u8> = Vec::new();
        v.push(48 + (n as u8));
        proof {
            assert(v@ =~= dec_bytes(n as nat));
        }
        v
    } else {
        let mut v = u64_to_dec(n / 10);
        v.push(48 + ((n % 10) as u8));
        v
    }
}

/// A fresh byte vector holding the literal's text.
fn lit(s: &str) -> (r: Vec<u8>)
    ensures
        r@ == s.spec_bytes(),
{
    s.as_bytes_vec()
}

/// The fixed greeting of `GET /hello`.
pub fn hello() -> (r: &'static str)
    ensures
        r@ == "Hello, outside world!"@,
{
    "Hello, outside world!"
}

/// The redirect the handlebars demonstration route answers with.
/// It is written next to the others but never mounted, as a reminder
/// of where a redirect response would come from.
pub fn handlebars() -> (r: Response)
    ensures
        r matches Response::Redirect(p) && p@ == "/hello/Caleb_Trachte".spec_bytes(),
{
    Response::Redirect(lit("/hello/Caleb_Trachte"))
}

/// Wraps one rendered helper parameter in emphasis tags, exactly as the
/// template helper writes them out.
pub fn wow_helper(text: &Vec<u8>) -> (r: Vec<u8>)
    ensures
        r@ == "<b><i>".spec_bytes() + text@ + "</b></i>".spec_bytes(),
{
    let mut r = lit("<b><i>");
    append_bytes(&mut r, text);
    let close = lit("</b></i>");
    append_bytes(&mut r, &close);
    r
}

/// The declared shape of the form this site accepts.
pub open spec fn form_schema_ok(fields: Seq<Field>) -> bool {
    &&& fields.len() == 6
    &&& fields[0].name@ == "checkbox".spec_bytes() && fields[0].wire is None && (fields[0].ty
        matches FieldType::Boolean)
    &&& fields[1].name@ == "number".spec_bytes() && fields[1].wire is None && (fields[1].ty
        matches FieldType::Unsigned)
    &&& fields[2].name@ == "radio".spec_bytes() && (fields[2].wire matches Some(w) && w@
        == "type".spec_bytes()) && (fields[2].ty matches FieldType::Enumeration(l)
        && labels_abc(l@))
    &&& fields[3].name@ == "password".spec_bytes() && fields[3].wire is None && (fields[3].ty
        matches FieldType::RawText)
    &&& fields[4].name@ == "text_area".spec_bytes() && (fields[4].wire matches Some(w) && w@
        == "textarea".spec_bytes()) && (fields[4].ty matches FieldType::OwnedText)
    &&& fields[5].name@ == "select".spec_bytes() && fields[5].wire is None && (fields[5].ty
        matches FieldType::Enumeration(l) && labels_abc(l@))
}

/// The three declared labels of the bounded enumerations.
pub open spec fn labels_abc(labels: Seq<Vec<u8>>) -> bool {
    labels.len() == 3 && labels[0]@ == "A".spec_bytes() && labels[1]@ == "B".spec_bytes()
        && labels[2]@ == "C".spec_bytes()
}

/// Builds the form schema this site declares.
pub fn build_schema() -> (r: FormSchema)
    ensures
        form_schema_ok(r.fields@),
{
    let mut labels1: Vec<Vec<u8>> = Vec::new();
    labels1.push(lit("A"));
    labels1.push(lit("B"));
    labels1.push(lit("C"));
    let mut labels2: Vec<Vec<u8>> = Vec::new();
    labels2.push(lit("A"));
    labels2.push(lit("B"));
    labels2.push(lit("C"));
    let mut fields: Vec<Field> = Vec::new();
    fields.push(Field { name: lit("checkbox"), wire: None, ty: FieldType::Boolean });
    fields.push(Field { name: lit("number"), wire: None, ty: FieldType::Unsigned });
    fields.push(
        Field { name: lit("radio"), wire: Some(lit("type")), ty: FieldType::Enumeration(labels1) },
    );
    fields.push(Field { name: lit("password"), wire: None, ty: FieldType::RawText });
    fields.push(
        Field { name: lit("text_area"), wire: Some(lit("textarea")), ty: FieldType::OwnedText },
    );
    fields.push(Field { name: lit("select"), wire: None, ty: FieldType::Enumeration(labels2) });
    FormSchema { fields }
}

/// What one decoded value renders back to: booleans as their tokens,
/// numbers in base 10, a choice as its declared label, text as itself.
pub open spec fn render_value(ty: FieldType, v: SpecValue) -> Seq<u8> {
    match v {
        SpecValue::Bool(b) => if b {
            crate::form::true_bytes()
        } else {
            crate::form::false_bytes()
        },
        SpecValue::Uint(n) => if n >= 0 {
            dec_bytes(n as nat)
        } else {
            Seq::empty()
        },
        SpecValue::Choice(i) => match ty {
            FieldType::Enumeration(labels) => if 0 <= i < labels@.len() {
                labels@[i]@
            } else {
                Seq::empty()
            },
            _ => Seq::empty(),
        },
        SpecValue::Text(t) => t,
    }
}

/// The decoded form's display: `name=value` pairs in declaration order,
/// joined by `&` — the readable representation a successful submission
/// is answered with.
pub open spec fn render_form_from(fields: Seq<Field>, vals: Seq<SpecValue>, i: int) -> Seq<u8>
    decreases fields.len() - i,
{
    if i < 0 || i >= fields.len() || i >= vals.len() {
        Seq::empty()
    } else {
        let entry = fields[i].name@ + seq![61u8] + render_value(fields[i].ty, vals[i]);
        if i + 1 < fields.len() && i + 1 < vals.len() {
            entry + seq![38u8] + render_form_from(fields, vals, i + 1)
        } else {
            entry
        }
    }
}

pub open spec fn render_form(fields: Seq<Field>, vals: Seq<SpecValue>) -> Seq<u8> {
    render_form_from(fields, vals, 0)
}

/// Renders one decoded value.
fn render_value_exec(ty: &FieldType, v: &FieldValue) -> (r: Vec<u8>)
    ensures
        r@ == render_value(*ty, crate::form::value_view(*v)),
{
    match v {
        FieldValue::Bool(b) => {
            if *b {
                crate::form::true_token()
            } else {
                crate::form::false_token()
            }
        },
        FieldValue::Uint(n) => u64_to_dec(*n),
        FieldValue::Choice(i) => match ty {
            FieldType::Enumeration(labels) => {
                if *i < labels.len() {
                    labels[*i].clone()
                } else {
                    Vec::new()
                }
            },
            _ => Vec::new(),
        },
        FieldValue::Text(t) => t.clone(),
    }
}

/// Renders a whole decoded form.
#[verifier::loop_isolation(false)]
fn render_form_exec(fields: &Vec<Field>, values: &Vec<FieldValue>) -> (r: Vec<u8>)
    requires
        fields@.len() == values@.len(),
    ensures
        r@ == render_form(fields@, values_view(values@)),
{
    let mut out: Vec<u8> = Vec::new();
    proof {
        assert(out@ + render_form_from(fields@, values_view(values@), 0) =~= render_form(
            fields@,
            values_view(values@),
        ));
    }
    let mut i: usize = 0;
    while i < fields.len()
        invariant
            i <= fields@.len(),
            render_form(fields@, values_view(values@)) == out@ + render_form_from(
                fields@,
                values_view(values@),
                i as int,
            ),
        decreases fields@.len() - i,
    {
        let ghost prev = out@;
        let ghost vv = values_view(values@);
        append_bytes(&mut out, &fields[i].name);
        out.push(61);
        let val = render_value_exec(&fields[i].ty, &values[i]);
        append_bytes(&mut out, &val);
        proof {
            assert(vv[i as int] == crate::form::value_view(values@[i as int]));
        }
        let ghost entry = (fields@[i as int].name@ + seq![61u8] + render_value(
            fields@[i as int].ty,
            vv[i as int],
        ));
        if i + 1 < fields.len() {
            out.push(38);
            proof {
                assert(out@ =~= prev + entry + seq![38u8]);
                assert(prev + render_form_from(fields@, vv, i as int) =~= out@ + render_form_from(
                    fields@,
                    vv,
                    i as int + 1,
                ));
            }
        } else {
            proof {
                assert(out@ =~= prev + entry);
                assert(render_form_from(fields@, vv, i as int) == entry);
                assert(prev + render_form_from(fields@, vv, i as int) =~= out@ + render_form_from(
                    fields@,
                    vv,
                    i as int + 1,
                ));
            }
        }
        i = i + 1;
    }
    proof {
        assert(out@ + render_form_from(fields@, values_view(values@), fields@.len() as int)
            =~= out@);
    }
    out
}

/// What the form endpoint answers: the rendered decoded form on
/// success, a fixed sentence for a body that is not valid text, and the
/// first offending field's name after a fixed prefix otherwise.
pub open spec fn form_submit_applies(fields: Seq<Field>, body: Seq<u8>, r: Response) -> bool {
    if !valid_utf8(body) {
        r matches Response::Text(t) && t@ == "Form input was invalid UTF-8.".spec_bytes()
    } else {
        match spec_decode_fields(fields, spec_pairs(body)) {
            Ok(vals) => r matches Response::Text(t) && t@ == render_form(fields, vals),
            Err(e) => r matches Response::Text(t) && t@ == "Invalid form input: ".spec_bytes()
                + e.0,
        }
    }
}

/// The visitors page: the announcement and the count after this visit.
pub open spec fn visitors_html(count: nat) -> Seq<u8> {
    "Your visit has been recorded!<br /><br />Visits: ".spec_bytes() + dec_bytes(count)
}

/// What each handler returns and does to the counter. The counter
/// changes only under the visitors handler, and there by exactly one —
/// every handler runs once per dispatch and no increment is lost.
pub open spec fn handler_applies(
    h: Handler,
    fields: Seq<Field>,
    count0: nat,
    count1: nat,
    params: Seq<(Seq<u8>, Seq<u8>)>,
    body: Seq<u8>,
    r: Response,
) -> bool {
    match h {
        Handler::Index => count1 == count0 && (r matches Response::File(p) && p@
            == "static/index.html".spec_bytes()),
        Handler::Hello => count1 == count0 && (r matches Response::Text(t) && t@
            == "Hello, outside world!".spec_bytes()),
        Handler::HelloName => count1 == count0 && (r matches Response::Page(n, ctx) && n@
            == "index".spec_bytes() && ctx.title@ == "Hello".spec_bytes() && (match spec_lookup(
            params,
            "name".spec_bytes(),
        ) {
            Some(v) => ctx.name matches Some(nm) && nm@ == v,
            None => ctx.name is None,
        }) && items_view(ctx.items@) == seq![
            "One".spec_bytes(),
            "Two".spec_bytes(),
            "Three".spec_bytes(),
        ] && ctx.parent@ == "layout".spec_bytes()),
        Handler::About => count1 == count0 && (r matches Response::Page(n, ctx) && n@
            == "about".spec_bytes() && ctx.title@ == "About".spec_bytes() && ctx.name is None
            && items_view(ctx.items@) == seq![
            "Four".spec_bytes(),
            "Five".spec_bytes(),
            "Six".spec_bytes(),
        ] && ctx.parent@ == "layout".spec_bytes()),
        Handler::FormPage => count1 == count0 && (r matches Response::File(p) && p@
            == "static/Form.html".spec_bytes()),
        Handler::FormSubmit => count1 == count0 && form_submit_applies(fields, body, r),
        Handler::Visitors => count1 == count0 + 1 && (r matches Response::Html(t) && t@
            == visitors_html(count1)),
        Handler::Count => count1 == count0 && (r matches Response::Text(t) && t@ == dec_bytes(
            count0,
        )),
    }
}

/// The views of a list of template items.
pub open spec fn items_view(v: Seq<Vec<u8>>) -> Seq<Seq<u8>> {
    crate::bytes::views_of(v)
}

/// The site: its route table, its declared form schema, and whether a
/// catch-handler was registered for unmatched paths.
pub struct Site {
    pub table: RouteTable<Handler>,
    pub schema: FormSchema,
    pub catch_registered: bool,
}

/// The fixed routes of this site, in registration order.
pub open spec fn site_routes_ok(routes: Seq<Route<Handler>>) -> bool {
    &&& routes.len() == 8
    &&& route_is(routes[0], Method::Get, Handler::Index) && routes[0].pattern@.len() == 0
    &&& route_is(routes[1], Method::Get, Handler::FormPage) && pat_lit1(
        routes[1].pattern@,
        "form".spec_bytes(),
    )
    &&& route_is(routes[2], Method::Post, Handler::FormSubmit) && pat_lit1(
        routes[2].pattern@,
        "form".spec_bytes(),
    )
    &&& route_is(routes[3], Method::Get, Handler::Hello) && pat_lit1(
        routes[3].pattern@,
        "hello".spec_bytes(),
    )
    &&& route_is(routes[4], Method::Get, Handler::HelloName) && pat_lit_cap(
        routes[4].pattern@,
        "hello".spec_bytes(),
        "name".spec_bytes(),
    )
    &&& route_is(routes[5], Method::Get, Handler::About) && pat_lit1(
        routes[5].pattern@,
        "about".spec_bytes(),
    )
    &&& route_is(routes[6], Method::Get, Handler::Visitors) && pat_lit1(
        routes[6].pattern@,
        "visitors".spec_bytes(),
    )
    &&& route_is(routes[7], Method::Get, Handler::Count) && pat_lit1(
        routes[7].pattern@,
        "count".spec_bytes(),
    )
}

pub open spec fn route_is(r: Route<Handler>, m: Method, h: Handler) -> bool {
    r.method == m && r.handler == h
}

/// A one-segment literal pattern.
pub open spec fn pat_lit1(p: Seq<Segment>, name: Seq<u8>) -> bool {
    p.len() == 1 && (p[0] matches Segment::Literal(l) && l@ == name)
}

/// A literal segment followed by a named capture.
pub open spec fn pat_lit_cap(p: Seq<Segment>, name: Seq<u8>, cap: Seq<u8>) -> bool {
    p.len() == 2 && (p[0] matches Segment::Literal(l) && l@ == name) && (p[1]
        matches Segment::Capture(c) && c@ == cap)
}

/// The five one-segment literal route names carry pairwise different
/// bytes, so no two of this site's routes can collide behind their
/// names.
proof fn lemma_route_literals_distinct()
    ensures
        "form".spec_bytes().len() == 4,
        "hello".spec_bytes().len() == 5,
        "about".spec_bytes().len() == 5,
        "visitors".spec_bytes().len() == 8,
        "count".spec_bytes().len() == 5,
        "hello".spec_bytes() != "about".spec_bytes(),
        "hello".spec_bytes() != "count".spec_bytes(),
        "about".spec_bytes() != "count".spec_bytes(),
{
    reveal_strlit("form");
    reveal_strlit("hello");
    reveal_strlit("about");
    reveal_strlit("visitors");
    reveal_strlit("count");
    assert(vstd::string::is_ascii(("form")));
    assert(vstd::string::is_ascii(("hello")));
    assert(vstd::string::is_ascii(("about")));
    assert(vstd::string::is_ascii(("visitors")));
    assert(vstd::string::is_ascii(("count")));
    broadcast use vstd::string::is_ascii_spec_bytes;

    assert("hello".spec_bytes()[0] == 'h' as u8);
    assert("about".spec_bytes()[0] == 'a' as u8);
    assert("count".spec_bytes()[0] == 'c' as u8);
}

/// No route among `routes`, each shaped as `site_routes_ok` lists them
/// up to index `n`, collides with a fresh one-segment literal pattern
/// whose bytes differ from every literal already present under the same
/// method.
proof fn lemma_lit1_no_conflict(
    routes: Seq<Route<Handler>>,
    m: Method,
    p: Seq<Segment>,
    name: Seq<u8>,
)
    requires
        pat_lit1(p, name),
        forall|i: int|
            0 <= i < routes.len() ==> routes[i].pattern@.len() != 1 || (#[trigger] routes[i]).method
                != m || (routes[i].pattern@[0] matches Segment::Literal(l) && l@ != name),
    ensures
        !has_conflict(routes, m, p),
{
    assert forall|i: int|
        0 <= i < routes.len() implies !((#[trigger] routes[i]).method == m && pattern_eq(
        routes[i].pattern@,
        p,
    )) by {
        if routes[i].method == m && pattern_eq(routes[i].pattern@, p) {
            assert(routes[i].pattern@.len() == 1);
            assert(seg_shape_eq(routes[i].pattern@[0], p[0]));
            assert(false);
        }
    }
}

/// Builds the site at startup: registers every route in order and
/// declares the form schema. The routes are pairwise distinct, so
/// registration always succeeds; a duplicate would surface here as the
/// startup conflict and abort initialization before anything serves.
pub fn build_site() -> (r: Result<Site, StartupConflict>)
    ensures
        r matches Ok(site) && site_routes_ok(site.table.routes()) && form_schema_ok(
            site.schema.fields@,
        ) && site.catch_registered,
{
    proof {
        lemma_route_literals_distinct();
    }
    let mut table: RouteTable<Handler> = RouteTable::new();
    let root: Vec<Segment> = Vec::new();
    if let Err(e) = table.register(Method::Get, root, Handler::Index) {
        return Err(e);
    }
    let mut p: Vec<Segment> = Vec::new();
    p.push(Segment::Literal(lit("form")));
    proof {
        lemma_lit1_no_conflict(table.routes(), Method::Get, p@, "form".spec_bytes());
    }
    if let Err(e) = table.register(Method::Get, p, Handler::FormPage) {
        return Err(e);
    }
    let mut p: Vec<Segment> = Vec::new();
    p.push(Segment::Literal(lit("form")));
    proof {
        lemma_lit1_no_conflict(table.routes(), Method::Post, p@, "form".spec_bytes());
    }
    if let Err(e) = table.register(Method::Post, p, Handler::FormSubmit) {
        return Err(e);
    }
    let mut p: Vec<Segment> = Vec::new();
    p.push(Segment::Literal(lit("hello")));
    proof {
        lemma_lit1_no_conflict(table.routes(), Method::Get, p@, "hello".spec_bytes());
    }
    if let Err(e) = table.register(Method::Get, p, Handler::Hello) {
        return Err(e);
    }
    let mut p: Vec<Segment> = Vec::new();
    p.push(Segment::Literal(lit("hello")));
    p.push(Segment::Capture(lit("name")));
    proof {
        assert forall|i: int|
            0 <= i < table.routes().len() implies !((#[trigger] table.routes()[i]).method
            == Method::Get && pattern_eq(table.routes()[i].pattern@, p@)) by {
            assert(table.routes()[i].pattern@.len() != 2);
        }
    }
    if let Err(e) = table.register(Method::Get, p, Handler::HelloName) {
        return Err(e);
    }
    let mut p: Vec<Segment> = Vec::new();
    p.push(Segment::Literal(lit("about")));
    proof {
        lemma_lit1_no_conflict(table.routes(), Method::Get, p@, "about".spec_bytes());
    }
    if let Err(e) = table.register(Method::Get, p, Handler::About) {
        return Err(e);
    }
    let mut p: Vec<Segment> = Vec::new();
    p.push(Segment::Literal(lit("visitors")));
    proof {
        lemma_lit1_no_conflict(table.routes(), Method::Get, p@, "visitors".spec_bytes());
    }
    if let Err(e) = table.register(Method::Get, p, Handler::Visitors) {
        return Err(e);
    }
    let mut p: Vec<Segment> = Vec::new();
    p.push(Segment::Literal(lit("count")));
    proof {
        lemma_lit1_no_conflict(table.routes(), Method::Get, p@, "count".spec_bytes());
    }
    if let Err(e) = table.register(Method::Get, p, Handler::Count) {
        return Err(e);
    }
    let schema = build_schema();
    Ok(Site { table, schema, catch_registered: true })
}

/// Runs the matched handler once, with the request's captures, query
/// pairs and body. The query mapping is handed over verbatim; none of
/// this site's handlers declares a query parameter, so none reads it.
fn run_handler(
    site: &Site,
    hits: &mut HitCount,
    h: Handler,
    params: &ParamMap,
    _query: &ParamMap,
    body: &Vec<u8>,
) -> (r: Response)
    requires
        old(hits)@ < usize::MAX,
    ensures
        handler_applies(h, site.schema.fields@, old(hits)@, final(hits)@, params@, body@, r),
{
    match h {
        Handler::Index => Response::File(lit("static/index.html")),
        Handler::Hello => Response::Text(hello().as_bytes_vec()),
        Handler::HelloName => {
            let name: Option<Vec<u8>> = match params.get(&lit("name")) {
                Some(v) => Some(v.clone()),
                None => None,
            };
            let mut items: Vec<Vec<u8>> = Vec::new();
            items.push(lit("One"));
            items.push(lit("Two"));
            items.push(lit("Three"));
            proof {
                assert(items_view(items@) =~= seq![
                    "One".spec_bytes(),
                    "Two".spec_bytes(),
                    "Three".spec_bytes(),
                ]);
            }
            Response::Page(
                lit("index"),
                TemplateContext { title: lit("Hello"), name, items, parent: lit("layout") },
            )
        },
        Handler::About => {
            let mut items: Vec<Vec<u8>> = Vec::new();
            items.push(lit("Four"));
            items.push(lit("Five"));
            items.push(lit("Six"));
            proof {
                assert(items_view(items@) =~= seq![
                    "Four".spec_bytes(),
                    "Five".spec_bytes(),
                    "Six".spec_bytes(),
                ]);
            }
            Response::Page(
                lit("about"),
                TemplateContext { title: lit("About"), name: None, items, parent: lit("layout") },
            )
        },
        Handler::FormPage => Response::File(lit("static/Form.html")),
        Handler::FormSubmit => match decode(&site.schema, body) {
            Ok(form) => {
                proof {
                    crate::form::lemma_decode_from_len(
                        site.schema.fields@,
                        spec_pairs(body@),
                        0,
                        Seq::<SpecValue>::empty(),
                    );
                }
                let text = render_form_exec(&site.schema.fields, &form.values);
                Response::Text(text)
            },
            Err(DecodeError::Encoding) => Response::Text(lit("Form input was invalid UTF-8.")),
            Err(DecodeError::Field(name, _raw)) => {
                let mut text = lit("Invalid form input: ");
                append_bytes(&mut text, &name);
                Response::Text(text)
            },
        },
        Handler::Visitors => {
            hits.increment();
            let c = hits.read();
            let mut text = lit("Your visit has been recorded!<br /><br />Visits: ");
            let digits = u64_to_dec(c as u64);
            append_bytes(&mut text, &digits);
            Response::Html(text)
        },
        Handler::Count => {
            let c = hits.read();
            Response::Text(u64_to_dec(c as u64))
        },
    }
}

/// True when a request goes to the static asset server: a `GET` whose
/// path lies under the static mount, with a non-empty remainder.
pub open spec fn is_static_request(method: Method, path: Seq<u8>) -> bool {
    method == Method::Get && path.len() > "/static/".spec_bytes().len() && path.take(
        "/static/".spec_bytes().len() as int,
    ) == "/static/".spec_bytes()
}

/// The whole per-request contract: a static-mount request streams the
/// named file; otherwise the first matching route's handler runs once
/// with the captures its pattern binds; and when nothing matches, no
/// handler runs, the counter is untouched and the catch-handler's page
/// (or the minimal fallback) comes back naming the path.
pub open spec fn dispatch_applies(
    routes: Seq<Route<Handler>>,
    fields: Seq<Field>,
    catch_registered: bool,
    count0: nat,
    count1: nat,
    method: Method,
    path: Seq<u8>,
    body: Seq<u8>,
    r: Response,
) -> bool {
    if is_static_request(method, path) {
        count1 == count0 && (r matches Response::File(p) && p@ == path.skip(1))
    } else {
        let parts = path_parts(path);
        let idx = first_match(routes, method, parts);
        if idx >= 0 {
            handler_applies(
                routes[idx].handler,
                fields,
                count0,
                count1,
                captures(routes[idx].pattern@, parts),
                body,
                r,
            )
        } else {
            count1 == count0 && (if catch_registered {
                r matches Response::NotFoundPage(p) && p@ == path
            } else {
                r matches Response::NotFoundText(t) && t@ == "404 Not Found".spec_bytes()
            })
        }
    }
}

/// Dispatches one request: the sole per-request entry point.
pub fn dispatch(
    site: &Site,
    hits: &mut HitCount,
    method: Method,
    path: &Vec<u8>,
    query: &Vec<u8>,
    body: &Vec<u8>,
) -> (r: Response)
    requires
        path@.len() >= 1,
        path@[0] == 47,
        old(hits)@ < usize::MAX,
    ensures
        dispatch_applies(
            site.table.routes(),
            site.schema.fields@,
            site.catch_registered,
            old(hits)@,
            final(hits)@,
            method,
            path@,
            body@,
            r,
        ),
{
    let slash_static = lit("/static/");
    if method == Method::Get && path.len() > slash_static.len() && crate::bytes::starts_with(
        path,
        &slash_static,
    ) {
        return Response::File(crate::bytes::tail_from(path, 1));
    }
    // query pairs are parsed independently of path matching and handed
    // to the handler verbatim
    let query_pairs = parse_pairs(query);
    let parts = path_to_parts(path);
    match site.table.find(method, &parts) {
        Some((h, params)) => run_handler(site, hits, h, &params, &query_pairs, body),
        None => {
            if site.catch_registered {
                Response::NotFoundPage(path.clone())
            } else {
                Response::NotFoundText(lit("404 Not Found"))
            }
        },
    }
}

} // verus!

