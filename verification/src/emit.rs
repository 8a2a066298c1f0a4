//! The impls of one instantiation.
//!
//! deku's derive runs on a hidden "mirror" of the struct, and the impls for the
//! struct delegate to the mirror. The read mirror owns its fields, which are
//! moved into the struct. The write mirror holds a reference to each field of
//! `&self`.
use proc_macro2::{Span, TokenStream};
use vstd::prelude::*;

use crate::attrs::MirrorKind;
use crate::bind::{angled, in_angles};
use crate::code::{
    attribute_with, colons, derived_impl, enclose, enclosed, fixed, in_const, lifetime,
    make_attribute, make_colons, make_const, make_fixed, make_impl, make_lifetime, make_mark, mark,
};
use crate::mirror::string;
use crate::stream::{
    append, ascii_ident, comma, comma_separated, concatenated, copied, decimal, new_stream,
    push_ident, push_number, push_string, stream_list, stream_tokens, views, Delim, Tree,
};
use crate::syntax::{tokens_in, Layout};
use crate::template::{fill, filled, Slot};
use crate::text::{concat, joined};

verus! {

/// A field of the struct.
pub struct FieldInfo {
    pub ident: Option<TokenStream>,
    pub ty: TokenStream,
    /// The name under which the generated conversion holds the field.
    pub local: TokenStream,
}

/// A [`FieldInfo`] as the contracts see it.
pub struct FieldInfoView {
    pub ident: Option<Seq<Tree>>,
    pub ty: Seq<Tree>,
    pub local: Seq<Tree>,
}

impl View for FieldInfo {
    type V = FieldInfoView;

    open spec fn view(&self) -> FieldInfoView {
        FieldInfoView {
            ident: tokens_in(self.ident),
            ty: stream_tokens(self.ty),
            local: stream_tokens(self.local),
        }
    }
}

/// What the impls of an instantiation are made from.
pub struct Scope {
    /// The path of deku.
    pub deku: TokenStream,
    /// The type that the impls are for.
    pub target: TokenStream,
    pub where_clause: TokenStream,
    /// The lifetimes of the struct, alone and with their bounds.
    pub lifetimes: Vec<TokenStream>,
    pub params: Vec<TokenStream>,
    /// The deku attributes of the struct.
    pub attrs: TokenStream,
    /// The types of the contexts for which there is an impl.
    pub ctx_list: Vec<TokenStream>,
    /// Whether `()` is one of them.
    pub unit_ctx: bool,
    pub layout: Layout,
    pub fields: Vec<FieldInfo>,
}

/// A [`Scope`] as the contracts see it.
pub struct ScopeView {
    pub deku: Seq<Tree>,
    pub target: Seq<Tree>,
    pub where_clause: Seq<Tree>,
    pub lifetimes: Seq<Seq<Tree>>,
    pub params: Seq<Seq<Tree>>,
    pub attrs: Seq<Tree>,
    pub ctx_list: Seq<Seq<Tree>>,
    pub unit_ctx: bool,
    pub layout: Layout,
    pub fields: Seq<FieldInfoView>,
}

impl View for Scope {
    type V = ScopeView;

    open spec fn view(&self) -> ScopeView {
        ScopeView {
            deku: stream_tokens(self.deku),
            target: stream_tokens(self.target),
            where_clause: stream_tokens(self.where_clause),
            lifetimes: stream_list(self.lifetimes@),
            params: stream_list(self.params@),
            attrs: stream_tokens(self.attrs),
            ctx_list: stream_list(self.ctx_list@),
            unit_ctx: self.unit_ctx,
            layout: self.layout,
            fields: views(self.fields@),
        }
    }
}

/// The contents of lists of streams.
pub open spec fn stream_lists(lists: Seq<Vec<TokenStream>>) -> Seq<Seq<Seq<Tree>>> {
    lists.map_values(|list: Vec<TokenStream>| stream_list(list@))
}

/// The lints that do not matter in a mirror.
pub const MIRROR_LINTS: &'static str = "
    # [ allow ( dead_code , non_camel_case_types , non_snake_case , clippy :: all ) ]
";

/// One identifier.
pub open spec fn word(text: Seq<char>, at: Span) -> Seq<Tree> {
    seq![Tree::Ident { text, at }]
}

/// One identifier.
pub(crate) fn make_word(text: &str, at: Span) -> (out: TokenStream)
    requires
        ascii_ident(text@),
    ensures
        stream_tokens(out) == word(text@, at),
{
    let mut out = new_stream();
    push_ident(&mut out, text, at);
    assert(stream_tokens(out) =~= word(text@, at));
    out
}

/// `#[derive(deku::Derive)]`
pub open spec fn derives(deku: Seq<Tree>, derive: Seq<char>, site: Span) -> Seq<Tree> {
    attribute_with(
        word("derive"@, site) + enclosed(
            Delim::Paren,
            deku + colons(site) + word(derive, site),
            site,
        ),
        site,
    )
}

/// `#[derive(deku::Derive)]`
fn make_derives(deku: &TokenStream, derive: &str, site: Span) -> (out: TokenStream)
    requires
        ascii_ident(derive@),
    ensures
        stream_tokens(out) == derives(stream_tokens(*deku), derive@, site),
{
    proof {
        reveal_strlit("derive");
    }
    let mut path = copied(deku);
    append(&mut path, &make_colons(site));
    append(&mut path, &make_word(derive, site));
    let mut inner = make_word("derive", site);
    append(&mut inner, &enclose(Delim::Paren, &path, site));
    make_attribute(&inner, site)
}

/// What follows the parameters of a mirror: its fields and its where clause.
pub open spec fn mirror_template(
    layout: Layout,
    where_clause: Seq<Tree>,
    fields: Seq<Tree>,
    site: Span,
) -> Seq<Tree> {
    match layout {
        Layout::Named => where_clause + enclosed(Delim::Brace, fields, site),
        Layout::Unnamed => enclosed(Delim::Paren, fields, site) + where_clause + mark(';', site),
        Layout::Unit => where_clause + mark(';', site),
    }
}

/// `#[derive(deku::Derive)] struct Mirror<..> where .. { fields }`
pub open spec fn mirror_of(
    scope: ScopeView,
    derive: Seq<char>,
    mirror: Seq<char>,
    generics: Seq<Tree>,
    fields: Seq<Tree>,
    site: Span,
) -> Seq<Tree> {
    derives(scope.deku, derive, site) + scope.attrs + fixed(MIRROR_LINTS@, site) + word(
        "struct"@,
        site,
    ) + word(mirror, site) + generics + mirror_template(
        scope.layout,
        scope.where_clause,
        fields,
        site,
    )
}

/// `#[derive(deku::Derive)] struct Mirror<..> where .. { fields }`
fn mirror_struct(
    scope: &Scope,
    derive: &str,
    mirror: &str,
    generics: &TokenStream,
    fields: &TokenStream,
    site: Span,
) -> (out: TokenStream)
    requires
        ascii_ident(derive@),
        ascii_ident(mirror@),
    ensures
        stream_tokens(out) == mirror_of(
            scope@,
            derive@,
            mirror@,
            stream_tokens(*generics),
            stream_tokens(*fields),
            site,
        ),
{
    proof {
        reveal_strlit("struct");
    }
    let mut out = make_derives(&scope.deku, derive, site);
    append(&mut out, &scope.attrs);
    append(&mut out, &make_fixed(MIRROR_LINTS, site));
    append(&mut out, &make_word("struct", site));
    append(&mut out, &make_word(mirror, site));
    append(&mut out, generics);
    let mut body = new_stream();
    match scope.layout {
        Layout::Named => {
            append(&mut body, &scope.where_clause);
            append(&mut body, &enclose(Delim::Brace, fields, site));
        },
        Layout::Unnamed => {
            append(&mut body, &enclose(Delim::Paren, fields, site));
            append(&mut body, &scope.where_clause);
            append(&mut body, &make_mark(';', site));
        },
        Layout::Unit => {
            append(&mut body, &scope.where_clause);
            append(&mut body, &make_mark(';', site));
        },
    }
    assert(stream_tokens(body) =~= mirror_template(
        scope@.layout,
        scope@.where_clause,
        stream_tokens(*fields),
        site,
    ));
    append(&mut out, &body);
    out
}

/// A field of a mirror: the attributes that are given, its name if it has one,
/// and its type or a reference to it.
pub open spec fn mirror_field(
    field: FieldInfoView,
    attrs: Seq<Seq<Tree>>,
    borrowed: bool,
    site: Span,
) -> Seq<Tree> {
    let name = match field.ident {
        Some(ident) => ident + mark(':', site),
        None => Seq::empty(),
    };
    let reference = if borrowed {
        mark('&', site) + lifetime("__dg_ref"@, site)
    } else {
        Seq::empty()
    };
    concat(attrs) + name + reference + field.ty + mark(',', site)
}

/// The fields of a mirror.
pub open spec fn mirror_fields(
    fields: Seq<FieldInfoView>,
    mirrors: Seq<Seq<Seq<Tree>>>,
    borrowed: bool,
    site: Span,
) -> Seq<Tree> {
    concat(
        Seq::new(fields.len(), |i: int| mirror_field(fields[i], mirrors[i], borrowed, site)),
    )
}

/// A field of a mirror.
fn make_mirror_field(
    field: &FieldInfo,
    attrs: &Vec<TokenStream>,
    borrowed: bool,
    site: Span,
) -> (out: TokenStream)
    ensures
        stream_tokens(out) == mirror_field(field@, stream_list(attrs@), borrowed, site),
{
    let mut name = new_stream();
    match &field.ident {
        Some(ident) => {
            append(&mut name, ident);
            append(&mut name, &make_mark(':', site));
            assert(stream_tokens(name) =~= stream_tokens(*ident) + mark(':', site));
        },
        None => {},
    }
    let mut reference = new_stream();
    if borrowed {
        proof {
            reveal_strlit("__dg_ref");
        }
        append(&mut reference, &make_mark('&', site));
        append(&mut reference, &make_lifetime("__dg_ref", site));
        assert(stream_tokens(reference) =~= mark('&', site) + lifetime("__dg_ref"@, site));
    }
    let mut out = concatenated(attrs);
    append(&mut out, &name);
    append(&mut out, &reference);
    append(&mut out, &field.ty);
    append(&mut out, &make_mark(',', site));
    out
}

/// The fields of a mirror.
fn make_mirror_fields(
    fields: &Vec<FieldInfo>,
    mirrors: &Vec<Vec<TokenStream>>,
    borrowed: bool,
    site: Span,
) -> (out: TokenStream)
    requires
        fields.len() == mirrors.len(),
    ensures
        stream_tokens(out) == mirror_fields(
            views(fields@),
            stream_lists(mirrors@),
            borrowed,
            site,
        ),
{
    let ghost all = Seq::new(
        views(fields@).len(),
        |i: int| mirror_field(views(fields@)[i], stream_lists(mirrors@)[i], borrowed, site),
    );
    let mut out = new_stream();
    for i in 0..fields.len()
        invariant
            fields.len() == mirrors.len(),
            all == Seq::new(
                views(fields@).len(),
                |i: int| mirror_field(views(fields@)[i], stream_lists(mirrors@)[i], borrowed, site),
            ),
            stream_tokens(out) == concat(all.take(i as int)),
    {
        assert(all.take(i + 1).drop_last() =~= all.take(i as int));
        assert(views(fields@)[i as int] == fields@[i as int]@);
        assert(stream_lists(mirrors@)[i as int] == stream_list(mirrors@[i as int]@));
        append(&mut out, &make_mirror_field(&fields[i], &mirrors[i], borrowed, site));
    }
    assert(all.take(fields.len() as int) =~= all);
    out
}

/// `::core::result::Result::Ok`
pub const RESULT_OK: &'static str = ":: core :: result :: Result :: Ok";

/// How a value is read with a context.
pub const READER_SIGNATURE: &'static str = "
    # [ inline ]
    fn from_reader_with_ctx < __R : #deku :: no_std_io :: Read + #deku :: no_std_io :: Seek > (
        __deku_reader : & mut #deku :: reader :: Reader < __R > ,
        __deku_ctx : #ctx ,
    ) -> :: core :: result :: Result < Self , #deku :: DekuError >
";

/// The mirror is read.
pub const READER_CALL: &'static str = "
    let __dg_mirror = < #mirror_ty as #deku :: DekuReader < #reader_lt , #ctx >> :: from_reader_with_ctx (
        __deku_reader ,
        __deku_ctx ,
    ) ? ;
";

/// Reading from a reader or from bytes. As with deku's derive any lifetime of
/// the reader is accepted, so that callers can pass a local cursor.
pub const READ_CONTAINER: &'static str = "
    # [ inline ]
    fn from_reader < '__dg_r , __R : #deku :: no_std_io :: Read + #deku :: no_std_io :: Seek > (
        __deku_input : ( & '__dg_r mut __R , usize ) ,
    ) -> :: core :: result :: Result < ( usize , Self ) , #deku :: DekuError > {
        let __deku_reader = & mut #deku :: reader :: Reader :: new ( __deku_input . 0 ) ;
        if __deku_input . 1 != 0 {
            __deku_reader . skip_bits ( __deku_input . 1 , #deku :: ctx :: Order :: default ( ) ) ? ;
        }
        let __deku_value = < Self as #deku :: DekuReader < '_ , ( ) >> :: from_reader_with_ctx ( __deku_reader , ( ) ) ? ;
        :: core :: result :: Result :: Ok ( ( __deku_reader . bits_read , __deku_value ) )
    }

    # [ inline ]
    fn from_bytes (
        __deku_input : ( & #reader_lt [ u8 ] , usize ) ,
    ) -> :: core :: result :: Result < ( ( & #reader_lt [ u8 ] , usize ) , Self ) , #deku :: DekuError > {
        let mut __deku_cursor = #deku :: no_std_io :: Cursor :: new ( __deku_input . 0 ) ;
        let __deku_reader = & mut #deku :: reader :: Reader :: new ( & mut __deku_cursor ) ;
        if __deku_input . 1 != 0 {
            __deku_reader . skip_bits ( __deku_input . 1 , #deku :: ctx :: Order :: default ( ) ) ? ;
        }
        let __deku_value = < Self as #deku :: DekuReader < '_ , ( ) >> :: from_reader_with_ctx ( __deku_reader , ( ) ) ? ;
        let __deku_bits_read = __deku_reader . bits_read ;
        let __deku_idx = ( __deku_bits_read - ( __deku_bits_read % 8 ) ) / 8 ;
        let :: core :: option :: Option :: Some ( __deku_rest ) = __deku_input . 0 . get ( __deku_idx .. ) else {
            return :: core :: result :: Result :: Err ( #deku :: DekuError :: Incomplete (
                #deku :: error :: NeedSize :: new ( 8 * ( __deku_idx - __deku_input . 0 . len ( ) ) ) ,
            ) ) ;
        } ;
        :: core :: result :: Result :: Ok ( ( ( __deku_rest , __deku_bits_read % 8 ) , __deku_value ) )
    }
";

/// Reading all of some bytes.
pub const READ_BYTES: &'static str = "
    type Error = #deku :: DekuError ;

    # [ inline ]
    fn try_from ( __deku_input : & #reader_lt [ u8 ] ) -> :: core :: result :: Result < Self , Self :: Error > {
        let __deku_total_len = __deku_input . len ( ) ;
        let mut __deku_cursor = #deku :: no_std_io :: Cursor :: new ( __deku_input ) ;
        let ( __deku_bits_read , __deku_res ) =
            < Self as #deku :: DekuContainerRead < '_ >> :: from_reader ( ( & mut __deku_cursor , 0 ) ) ? ;
        let __deku_bytes_read = __deku_bits_read / 8 ;
        if __deku_bytes_read < __deku_total_len {
            return :: core :: result :: Result :: Err ( #deku :: deku_error ! (
                #deku :: DekuError :: Parse ,
                #too_much ,
                #lengths ,
                __deku_bytes_read ,
                __deku_total_len
            ) ) ;
        }
        if __deku_bytes_read > __deku_total_len {
            return :: core :: result :: Result :: Err ( #deku :: DekuError :: Incomplete (
                #deku :: error :: NeedSize :: new ( __deku_bits_read - ( __deku_total_len * 8 ) ) ,
            ) ) ;
        }
        :: core :: result :: Result :: Ok ( __deku_res )
    }
";

/// The lifetime of the reader: the struct's first, if it has any.
pub open spec fn reader_lifetime(scope: ScopeView, site: Span) -> Seq<Tree> {
    if scope.lifetimes.len() > 0 {
        scope.lifetimes[0]
    } else {
        lifetime("__deku"@, site)
    }
}

/// The parameters of the impls for reading.
pub open spec fn reader_generics(scope: ScopeView, site: Span) -> Seq<Tree> {
    if scope.lifetimes.len() > 0 {
        angled(scope.params, site)
    } else {
        angled(seq![reader_lifetime(scope, site)], site)
    }
}

/// `Name { inner }`, `Name(inner)` or `Name`.
pub open spec fn structure(
    layout: Layout,
    name: Seq<char>,
    inner: Seq<Tree>,
    site: Span,
) -> Seq<Tree> {
    match layout {
        Layout::Named => word(name, site) + enclosed(Delim::Brace, inner, site),
        Layout::Unnamed => word(name, site) + enclosed(Delim::Paren, inner, site),
        Layout::Unit => word(name, site),
    }
}

/// `Name { inner }`, `Name(inner)` or `Name`.
fn make_structure(layout: Layout, name: &str, inner: &TokenStream, site: Span) -> (out:
    TokenStream)
    requires
        ascii_ident(name@),
    ensures
        stream_tokens(out) == structure(layout, name@, stream_tokens(*inner), site),
{
    let mut out = make_word(name, site);
    match layout {
        Layout::Named => append(&mut out, &enclose(Delim::Brace, inner, site)),
        Layout::Unnamed => append(&mut out, &enclose(Delim::Paren, inner, site)),
        Layout::Unit => {},
    }
    out
}

/// `let pattern = value;`
pub open spec fn binding(pattern: Seq<Tree>, value: Seq<Tree>, site: Span) -> Seq<Tree> {
    word("let"@, site) + pattern + mark('=', site) + value + mark(';', site)
}

/// `let pattern = value;`
fn make_binding(pattern: &TokenStream, value: &TokenStream, site: Span) -> (out: TokenStream)
    ensures
        stream_tokens(out) == binding(stream_tokens(*pattern), stream_tokens(*value), site),
{
    proof {
        reveal_strlit("let");
    }
    let mut out = make_word("let", site);
    append(&mut out, pattern);
    append(&mut out, &make_mark('=', site));
    append(&mut out, value);
    append(&mut out, &make_mark(';', site));
    out
}

/// From the read mirror to the struct: the mirror is taken apart and the struct
/// put together.
pub open spec fn conversion(scope: ScopeView, site: Span) -> Seq<Tree> {
    let locals = scope.fields.map_values(|field: FieldInfoView| field.local);
    let inner = joined(locals, seq![comma(site)]);
    let pattern = match scope.layout {
        Layout::Unit => word("_"@, site),
        layout => structure(layout, "__DekuGenericRead"@, inner, site),
    };
    binding(pattern, word("__dg_mirror"@, site), site) + structure(
        scope.layout,
        "Self"@,
        inner,
        site,
    )
}

/// One string literal without a suffix.
pub open spec fn quoted(value: Seq<char>, at: Span) -> Seq<Tree> {
    seq![string(value, at)]
}

/// What the templates for reading name.
pub open spec fn read_slots(scope: ScopeView, site: Span) -> Seq<(Seq<char>, Seq<Tree>)> {
    seq![
        ("deku"@, scope.deku),
        ("reader_lt"@, reader_lifetime(scope, site)),
        ("mirror_ty"@, word("__DekuGenericRead"@, site) + angled(scope.lifetimes, site)),
        ("too_much"@, quoted("Too much data"@, site)),
        ("lengths"@, quoted("Read {} but total length was {}"@, site)),
    ]
}

/// `deku::Name<..>`
pub open spec fn deku_trait(
    deku: Seq<Tree>,
    name: Seq<char>,
    args: Seq<Seq<Tree>>,
    site: Span,
) -> Seq<Tree> {
    deku + colons(site) + word(name, site) + angled(args, site)
}

/// `deku::Name<..>`
fn make_deku_trait(deku: &TokenStream, name: &str, args: &Vec<TokenStream>, site: Span) -> (out:
    TokenStream)
    requires
        ascii_ident(name@),
    ensures
        stream_tokens(out) == deku_trait(stream_tokens(*deku), name@, stream_list(args@), site),
{
    let mut out = copied(deku);
    append(&mut out, &make_colons(site));
    append(&mut out, &make_word(name, site));
    append(&mut out, &in_angles(args, site));
    out
}

/// `::core::convert::TryFrom`
pub const TRY_FROM: &'static str = ":: core :: convert :: TryFrom";

/// `::core::convert::TryFrom<Type>`
pub open spec fn try_from(ty: Seq<Tree>, site: Span) -> Seq<Tree> {
    fixed(TRY_FROM@, site) + angled(seq![ty], site)
}

/// `::core::convert::TryFrom<Type>`
fn make_try_from(ty: &TokenStream, site: Span) -> (out: TokenStream)
    ensures
        stream_tokens(out) == try_from(stream_tokens(*ty), site),
{
    let mut out = make_fixed(TRY_FROM, site);
    let args = vec![copied(ty)];
    assert(stream_list(args@) =~= seq![stream_tokens(*ty)]);
    append(&mut out, &in_angles(&args, site));
    out
}

/// `&'a [u8]`
pub open spec fn byte_slice(lifetime: Seq<Tree>, site: Span) -> Seq<Tree> {
    mark('&', site) + lifetime + enclosed(Delim::Bracket, word("u8"@, site), site)
}

/// How a value is read with a context: the mirror is read, and the struct made
/// from it.
pub open spec fn reader_body(scope: ScopeView, ctx: Seq<Tree>, site: Span) -> Seq<Tree> {
    let slots = read_slots(scope, site).push(("ctx"@, ctx));
    filled(READER_SIGNATURE@, slots, site) + enclosed(
        Delim::Brace,
        filled(READER_CALL@, slots, site) + fixed(RESULT_OK@, site) + enclosed(
            Delim::Paren,
            enclosed(Delim::Brace, conversion(scope, site), site),
            site,
        ),
        site,
    )
}

/// `DekuReader` for a context.
pub open spec fn reader(scope: ScopeView, ctx: Seq<Tree>, site: Span) -> Seq<Tree> {
    derived_impl(
        reader_generics(scope, site),
        deku_trait(scope.deku, "DekuReader"@, seq![reader_lifetime(scope, site), ctx], site),
        scope.target,
        scope.where_clause,
        reader_body(scope, ctx, site),
        site,
    )
}

/// `DekuReader` or `DekuWriter` for a context.
pub open spec fn ctx_impl(scope: ScopeView, kind: MirrorKind, ctx: Seq<Tree>, site: Span) -> Seq<
    Tree,
> {
    match kind {
        MirrorKind::Read => reader(scope, ctx, site),
        MirrorKind::Write => writer(scope, ctx, site),
    }
}

/// An impl for each context, in the order of the contexts.
pub open spec fn per_ctx(scope: ScopeView, kind: MirrorKind, site: Span) -> Seq<Tree> {
    concat(scope.ctx_list.map_values(|ctx: Seq<Tree>| ctx_impl(scope, kind, ctx, site)))
}

/// `DekuContainerRead` and `TryFrom<&[u8]>`.
pub open spec fn read_container(scope: ScopeView, site: Span) -> Seq<Tree> {
    let slots = read_slots(scope, site);
    derived_impl(
        reader_generics(scope, site),
        deku_trait(scope.deku, "DekuContainerRead"@, seq![reader_lifetime(scope, site)], site),
        scope.target,
        scope.where_clause,
        filled(READ_CONTAINER@, slots, site),
        site,
    ) + derived_impl(
        reader_generics(scope, site),
        try_from(byte_slice(reader_lifetime(scope, site), site), site),
        scope.target,
        scope.where_clause,
        filled(READ_BYTES@, slots, site),
        site,
    )
}

/// The read mirror and the impls for reading: `DekuReader` for each context,
/// and where `()` is one of them `DekuContainerRead` and `TryFrom<&[u8]>`.
/// `mirrors` holds the attributes of each field of the mirror.
pub open spec fn read_impls(
    scope: ScopeView,
    mirrors: Seq<Seq<Seq<Tree>>>,
    site: Span,
) -> Seq<Tree> {
    let mirror = mirror_of(
        scope,
        "DekuRead"@,
        "__DekuGenericRead"@,
        angled(scope.params, site),
        mirror_fields(scope.fields, mirrors, false, site),
        site,
    );
    let container = if scope.unit_ctx {
        read_container(scope, site)
    } else {
        Seq::empty()
    };
    mirror + per_ctx(scope, MirrorKind::Read, site) + container
}

/// One string literal without a suffix.
fn quote_text(value: &str, at: Span) -> (out: TokenStream)
    ensures
        stream_tokens(out) == quoted(value@, at),
{
    let mut out = new_stream();
    push_string(&mut out, value, at);
    assert(stream_tokens(out) =~= quoted(value@, at));
    out
}

/// The lifetime of the reader.
fn make_reader_lifetime(scope: &Scope, site: Span) -> (out: TokenStream)
    ensures
        stream_tokens(out) == reader_lifetime(scope@, site),
{
    assert(stream_list(scope.lifetimes@).len() == scope.lifetimes.len());
    if scope.lifetimes.len() > 0 {
        copied(&scope.lifetimes[0])
    } else {
        proof {
            reveal_strlit("__deku");
        }
        make_lifetime("__deku", site)
    }
}

/// The parameters of the impls for reading.
fn make_reader_generics(scope: &Scope, site: Span) -> (out: TokenStream)
    ensures
        stream_tokens(out) == reader_generics(scope@, site),
{
    assert(stream_list(scope.lifetimes@).len() == scope.lifetimes.len());
    if scope.lifetimes.len() > 0 {
        in_angles(&scope.params, site)
    } else {
        let args = vec![make_reader_lifetime(scope, site)];
        assert(stream_list(args@) =~= seq![reader_lifetime(scope@, site)]);
        in_angles(&args, site)
    }
}

/// From the read mirror to the struct.
fn make_conversion(scope: &Scope, site: Span) -> (out: TokenStream)
    ensures
        stream_tokens(out) == conversion(scope@, site),
{
    let ghost all = scope@.fields.map_values(|field: FieldInfoView| field.local);
    let mut locals: Vec<TokenStream> = Vec::new();
    for i in 0..scope.fields.len()
        invariant
            all == scope@.fields.map_values(|field: FieldInfoView| field.local),
            stream_list(locals@) =~= all.take(i as int),
    {
        let ghost was = locals@;
        assert(views(scope.fields@)[i as int] == scope.fields@[i as int]@);
        locals.push(copied(&scope.fields[i].local));
        assert(stream_list(locals@) =~= stream_list(was).push(all[i as int]));
    }
    assert(stream_list(locals@) =~= all);
    proof {
        reveal_strlit("_");
        reveal_strlit("Self");
        reveal_strlit("__dg_mirror");
        reveal_strlit("__DekuGenericRead");
    }
    let inner = comma_separated(&locals, site);
    let pattern = match scope.layout {
        Layout::Unit => make_word("_", site),
        layout => make_structure(layout, "__DekuGenericRead", &inner, site),
    };
    let mut out = make_binding(&pattern, &make_word("__dg_mirror", site), site);
    append(&mut out, &make_structure(scope.layout, "Self", &inner, site));
    out
}

/// What the templates for reading name.
fn make_read_slots(scope: &Scope, site: Span) -> (slots: Vec<Slot>)
    ensures
        views(slots@) == read_slots(scope@, site),
{
    proof {
        reveal_strlit("__DekuGenericRead");
    }
    let mut mirror_ty = make_word("__DekuGenericRead", site);
    append(&mut mirror_ty, &in_angles(&scope.lifetimes, site));
    let slots = vec![
        Slot { name: "deku", tokens: copied(&scope.deku) },
        Slot { name: "reader_lt", tokens: make_reader_lifetime(scope, site) },
        Slot { name: "mirror_ty", tokens: mirror_ty },
        Slot { name: "too_much", tokens: quote_text("Too much data", site) },
        Slot { name: "lengths", tokens: quote_text("Read {} but total length was {}", site) },
    ];
    assert(views(slots@) =~= read_slots(scope@, site));
    slots
}

/// How a value is read with a context.
fn make_reader_body(scope: &Scope, ctx: &TokenStream, site: Span) -> (out: TokenStream)
    ensures
        stream_tokens(out) == reader_body(scope@, stream_tokens(*ctx), site),
{
    let mut slots = make_read_slots(scope, site);
    let ghost before = slots@;
    slots.push(Slot { name: "ctx", tokens: copied(ctx) });
    assert(views(slots@) =~= views(before).push(("ctx"@, stream_tokens(*ctx))));
    let mut inner = fill(READER_CALL, &slots, site);
    append(&mut inner, &make_fixed(RESULT_OK, site));
    let made = enclose(Delim::Brace, &make_conversion(scope, site), site);
    append(&mut inner, &enclose(Delim::Paren, &made, site));
    let mut out = fill(READER_SIGNATURE, &slots, site);
    append(&mut out, &enclose(Delim::Brace, &inner, site));
    out
}

/// `DekuReader` for a context.
fn make_reader(scope: &Scope, ctx: &TokenStream, site: Span) -> (out: TokenStream)
    ensures
        stream_tokens(out) == reader(scope@, stream_tokens(*ctx), site),
{
    proof {
        reveal_strlit("DekuReader");
    }
    let lifetime = make_reader_lifetime(scope, site);
    let args = vec![lifetime, copied(ctx)];
    assert(stream_list(args@) =~= seq![reader_lifetime(scope@, site), stream_tokens(*ctx)]);
    make_impl(
        &make_reader_generics(scope, site),
        &make_deku_trait(&scope.deku, "DekuReader", &args, site),
        &scope.target,
        &scope.where_clause,
        &make_reader_body(scope, ctx, site),
        site,
    )
}

/// An impl for each context.
fn fill_per_ctx(scope: &Scope, kind: MirrorKind, site: Span) -> (out: TokenStream)
    ensures
        stream_tokens(out) == per_ctx(scope@, kind, site),
{
    let ghost all = scope@.ctx_list.map_values(
        |ctx: Seq<Tree>| ctx_impl(scope@, kind, ctx, site),
    );
    let mut out = new_stream();
    for i in 0..scope.ctx_list.len()
        invariant
            all == scope@.ctx_list.map_values(
                |ctx: Seq<Tree>| ctx_impl(scope@, kind, ctx, site),
            ),
            stream_tokens(out) == concat(all.take(i as int)),
    {
        assert(all.take(i + 1).drop_last() =~= all.take(i as int));
        let ctx = &scope.ctx_list[i];
        let one = match kind {
            MirrorKind::Read => make_reader(scope, ctx, site),
            MirrorKind::Write => make_writer(scope, ctx, site),
        };
        append(&mut out, &one);
    }
    assert(all.take(scope.ctx_list.len() as int) =~= all);
    out
}

/// `DekuContainerRead` and `TryFrom<&[u8]>`.
fn make_read_container(scope: &Scope, site: Span) -> (out: TokenStream)
    ensures
        stream_tokens(out) == read_container(scope@, site),
{
    proof {
        reveal_strlit("DekuContainerRead");
        reveal_strlit("u8");
    }
    let slots = make_read_slots(scope, site);
    let generics = make_reader_generics(scope, site);
    let lifetime = make_reader_lifetime(scope, site);
    let mut bytes = make_mark('&', site);
    append(&mut bytes, &lifetime);
    append(&mut bytes, &enclose(Delim::Bracket, &make_word("u8", site), site));
    let args = vec![lifetime];
    assert(stream_list(args@) =~= seq![reader_lifetime(scope@, site)]);
    let mut out = make_impl(
        &generics,
        &make_deku_trait(&scope.deku, "DekuContainerRead", &args, site),
        &scope.target,
        &scope.where_clause,
        &fill(READ_CONTAINER, &slots, site),
        site,
    );
    append(
        &mut out,
        &make_impl(
            &generics,
            &make_try_from(&bytes, site),
            &scope.target,
            &scope.where_clause,
            &fill(READ_BYTES, &slots, site),
            site,
        ),
    );
    out
}

/// The read mirror, whose fields have the given attributes, and the impls for
/// reading.
pub fn emit_read(scope: &Scope, mirrors: &Vec<Vec<TokenStream>>, site: Span) -> (out: TokenStream)
    requires
        mirrors.len() == scope.fields.len(),
    ensures
        stream_tokens(out) == read_impls(scope@, stream_lists(mirrors@), site),
{
    proof {
        reveal_strlit("DekuRead");
        reveal_strlit("__DekuGenericRead");
    }
    let fields = make_mirror_fields(&scope.fields, mirrors, false, site);
    let generics = in_angles(&scope.params, site);
    let mut out = mirror_struct(scope, "DekuRead", "__DekuGenericRead", &generics, &fields, site);
    append(&mut out, &fill_per_ctx(scope, MirrorKind::Read, site));
    let ghost before = stream_tokens(out);
    if scope.unit_ctx {
        append(&mut out, &make_read_container(scope, site));
    } else {
        assert(before + Seq::<Tree>::empty() =~= before);
    }
    out
}

/// How a value is written with a context.
pub const WRITER_SIGNATURE: &'static str = "
    # [ inline ]
    fn to_writer < __W : #deku :: no_std_io :: Write + #deku :: no_std_io :: Seek > (
        & self ,
        __deku_writer : & mut #deku :: writer :: Writer < __W > ,
        __deku_ctx : #ctx ,
    ) -> :: core :: result :: Result < ( ) , #deku :: DekuError >
";

/// The mirror is written.
pub const WRITER_CALL: &'static str = "
    #deku :: DekuWriter :: < #ctx > :: to_writer ( & __dg_mirror , __deku_writer , __deku_ctx )
";

/// How the real struct brings its fields up to date.
pub const UPDATE_SIGNATURE: &'static str = "
    # [ inline ]
    fn update ( & mut self ) -> :: core :: result :: Result < ( ) , #deku :: DekuError >
";

/// What the assignments need.
pub const UPDATE_USES: &'static str = "
    # [ allow ( unused_imports ) ]
    use :: core :: convert :: TryInto ;
";

/// What comes of an expression before it is assigned.
pub const CONVERTED: &'static str = ". try_into ( ) ? ;";

/// The crate that bytes are written with.
pub const ALLOC: &'static str = "extern crate alloc ;";

/// Where bytes are written to.
pub const BYTES: &'static str = "alloc :: vec :: Vec < u8 >";

/// Writing to bytes.
pub const WRITE_BYTES: &'static str = "
    type Error = #deku :: DekuError ;

    # [ inline ]
    fn try_from ( __deku_input : #target ) -> :: core :: result :: Result < Self , Self :: Error > {
        #deku :: DekuContainerWrite :: to_bytes ( & __deku_input )
    }
";

/// The name or the position by which the `i`-th field is reached.
pub open spec fn access(field: FieldInfoView, i: nat, site: Span) -> Seq<Tree> {
    match field.ident {
        Some(ident) => ident,
        None => seq![Tree::Literal { text: decimal(i), at: site }],
    }
}

/// The `i`-th field of the struct in the write mirror.
pub open spec fn borrow(layout: Layout, field: FieldInfoView, i: nat, site: Span) -> Seq<Tree> {
    let name = match layout {
        Layout::Named => access(field, i, site) + mark(':', site),
        _ => Seq::empty(),
    };
    name + mark('&', site) + word("self"@, site) + mark('.', site) + access(field, i, site)
}

/// From the struct to the write mirror.
pub open spec fn construction(scope: ScopeView, site: Span) -> Seq<Tree> {
    let borrows = Seq::new(
        scope.fields.len(),
        |i: int| borrow(scope.layout, scope.fields[i], i as nat, site),
    );
    structure(
        scope.layout,
        "__DekuGenericWrite"@,
        joined(borrows, seq![comma(site)]),
        site,
    )
}

/// The assignment to the `i`-th field, where it has an expression.
pub open spec fn assignment(
    field: FieldInfoView,
    expr: Option<Seq<Tree>>,
    i: nat,
    site: Span,
) -> Seq<Tree> {
    match expr {
        Some(expr) => word("self"@, site) + mark('.', site) + access(field, i, site) + mark(
            '=',
            site,
        ) + enclosed(Delim::Paren, expr, site) + fixed(CONVERTED@, site),
        None => Seq::empty(),
    }
}

/// The assignments to the fields, in their order.
pub open spec fn assignments(
    fields: Seq<FieldInfoView>,
    updates: Seq<Option<Seq<Tree>>>,
    site: Span,
) -> Seq<Tree> {
    concat(Seq::new(fields.len(), |i: int| assignment(fields[i], updates[i], i as nat, site)))
}

/// What the templates for writing name.
pub open spec fn write_slots(scope: ScopeView) -> Seq<(Seq<char>, Seq<Tree>)> {
    seq![("deku"@, scope.deku), ("target"@, scope.target)]
}

/// How a value is written with a context: the mirror is made from the struct,
/// and written.
pub open spec fn writer_body(scope: ScopeView, ctx: Seq<Tree>, site: Span) -> Seq<Tree> {
    let slots = write_slots(scope).push(("ctx"@, ctx));
    filled(WRITER_SIGNATURE@, slots, site) + enclosed(
        Delim::Brace,
        binding(word("__dg_mirror"@, site), construction(scope, site), site) + filled(
            WRITER_CALL@,
            slots,
            site,
        ),
        site,
    )
}

/// `DekuWriter` for a context.
pub open spec fn writer(scope: ScopeView, ctx: Seq<Tree>, site: Span) -> Seq<Tree> {
    derived_impl(
        angled(scope.params, site),
        deku_trait(scope.deku, "DekuWriter"@, seq![ctx], site),
        scope.target,
        scope.where_clause,
        writer_body(scope, ctx, site),
        site,
    )
}

/// How the real struct brings its fields up to date.
pub open spec fn update_body(
    scope: ScopeView,
    updates: Seq<Option<Seq<Tree>>>,
    site: Span,
) -> Seq<Tree> {
    filled(UPDATE_SIGNATURE@, write_slots(scope), site) + enclosed(
        Delim::Brace,
        fixed(UPDATE_USES@, site) + assignments(scope.fields, updates, site) + fixed(
            RESULT_OK@,
            site,
        ) + enclosed(Delim::Paren, enclosed(Delim::Paren, Seq::empty(), site), site),
        site,
    )
}

/// `DekuUpdate`.
pub open spec fn updater(
    scope: ScopeView,
    updates: Seq<Option<Seq<Tree>>>,
    site: Span,
) -> Seq<Tree> {
    derived_impl(
        angled(scope.params, site),
        deku_trait(scope.deku, "DekuUpdate"@, Seq::empty(), site),
        scope.target,
        scope.where_clause,
        update_body(scope, updates, site),
        site,
    )
}

/// `DekuContainerWrite`, and `TryFrom` into bytes.
pub open spec fn write_container(scope: ScopeView, site: Span) -> Seq<Tree> {
    derived_impl(
        angled(scope.params, site),
        deku_trait(scope.deku, "DekuContainerWrite"@, Seq::empty(), site),
        scope.target,
        scope.where_clause,
        Seq::empty(),
        site,
    ) + in_const(
        fixed(ALLOC@, site) + derived_impl(
            angled(scope.params, site),
            try_from(scope.target, site),
            fixed(BYTES@, site),
            scope.where_clause,
            filled(WRITE_BYTES@, write_slots(scope), site),
            site,
        ),
        site,
    )
}

/// The parameters of the write mirror: the lifetime of its references, and
/// those of the struct.
pub open spec fn write_generics(params: Seq<Seq<Tree>>, site: Span) -> Seq<Tree> {
    mark('<', site) + lifetime("__dg_ref"@, site) + mark(',', site) + joined(
        params,
        seq![comma(site)],
    ) + mark('>', site)
}

/// The write mirror and the impls for writing: `DekuWriter` for each context,
/// `DekuUpdate`, and where `()` is one of the contexts `DekuContainerWrite` and
/// `TryFrom` into bytes. `mirrors` holds the attributes of each field of the
/// mirror, and `updates` the expressions of the fields that have one.
pub open spec fn write_impls(
    scope: ScopeView,
    mirrors: Seq<Seq<Seq<Tree>>>,
    updates: Seq<Option<Seq<Tree>>>,
    site: Span,
) -> Seq<Tree> {
    let mirror = mirror_of(
        scope,
        "DekuWrite"@,
        "__DekuGenericWrite"@,
        write_generics(scope.params, site),
        mirror_fields(scope.fields, mirrors, true, site),
        site,
    );
    let container = if scope.unit_ctx {
        write_container(scope, site)
    } else {
        Seq::empty()
    };
    mirror + per_ctx(scope, MirrorKind::Write, site) + updater(scope, updates, site) + container
}

/// The name or the position by which the `i`-th field is reached.
fn make_access(field: &FieldInfo, i: usize, site: Span) -> (out: TokenStream)
    ensures
        stream_tokens(out) == access(field@, i as nat, site),
{
    match &field.ident {
        Some(ident) => copied(ident),
        None => {
            let mut out = new_stream();
            push_number(&mut out, i, site);
            assert(stream_tokens(out) =~= seq![
                Tree::Literal { text: decimal(i as nat), at: site },
            ]);
            out
        },
    }
}

/// The `i`-th field of the struct in the write mirror.
fn make_borrow(layout: Layout, field: &FieldInfo, i: usize, site: Span) -> (out: TokenStream)
    ensures
        stream_tokens(out) == borrow(layout, field@, i as nat, site),
{
    proof {
        reveal_strlit("self");
    }
    let mut out = new_stream();
    match layout {
        Layout::Named => {
            append(&mut out, &make_access(field, i, site));
            append(&mut out, &make_mark(':', site));
            assert(stream_tokens(out) =~= access(field@, i as nat, site) + mark(':', site));
        },
        _ => {},
    }
    append(&mut out, &make_mark('&', site));
    append(&mut out, &make_word("self", site));
    append(&mut out, &make_mark('.', site));
    append(&mut out, &make_access(field, i, site));
    out
}

/// From the struct to the write mirror.
fn make_construction(scope: &Scope, site: Span) -> (out: TokenStream)
    ensures
        stream_tokens(out) == construction(scope@, site),
{
    let ghost all = Seq::new(
        scope@.fields.len(),
        |i: int| borrow(scope@.layout, scope@.fields[i], i as nat, site),
    );
    let mut borrows: Vec<TokenStream> = Vec::new();
    for i in 0..scope.fields.len()
        invariant
            all == Seq::new(
                scope@.fields.len(),
                |i: int| borrow(scope@.layout, scope@.fields[i], i as nat, site),
            ),
            stream_list(borrows@) =~= all.take(i as int),
    {
        let ghost was = borrows@;
        assert(views(scope.fields@)[i as int] == scope.fields@[i as int]@);
        borrows.push(make_borrow(scope.layout, &scope.fields[i], i, site));
        assert(stream_list(borrows@) =~= stream_list(was).push(all[i as int]));
    }
    assert(stream_list(borrows@) =~= all);
    proof {
        reveal_strlit("__DekuGenericWrite");
    }
    make_structure(scope.layout, "__DekuGenericWrite", &comma_separated(&borrows, site), site)
}

/// The contents of optional streams.
pub open spec fn option_list(streams: Seq<Option<TokenStream>>) -> Seq<Option<Seq<Tree>>> {
    streams.map_values(|stream: Option<TokenStream>| tokens_in(stream))
}

/// The assignment to the `i`-th field.
fn make_assignment(field: &FieldInfo, expr: &TokenStream, i: usize, site: Span) -> (out:
    TokenStream)
    ensures
        stream_tokens(out) == assignment(field@, Some(stream_tokens(*expr)), i as nat, site),
{
    proof {
        reveal_strlit("self");
    }
    let mut out = make_word("self", site);
    append(&mut out, &make_mark('.', site));
    append(&mut out, &make_access(field, i, site));
    append(&mut out, &make_mark('=', site));
    append(&mut out, &enclose(Delim::Paren, expr, site));
    append(&mut out, &make_fixed(CONVERTED, site));
    out
}

/// The assignments to the fields, in their order.
fn make_assignments(fields: &Vec<FieldInfo>, updates: &Vec<Option<TokenStream>>, site: Span) -> (
    out: TokenStream)
    requires
        updates.len() == fields.len(),
    ensures
        stream_tokens(out) == assignments(views(fields@), option_list(updates@), site),
{
    let ghost all = Seq::new(
        views(fields@).len(),
        |i: int| assignment(views(fields@)[i], option_list(updates@)[i], i as nat, site),
    );
    let mut out = new_stream();
    for i in 0..fields.len()
        invariant
            updates.len() == fields.len(),
            all == Seq::new(
                views(fields@).len(),
                |i: int| assignment(views(fields@)[i], option_list(updates@)[i], i as nat, site),
            ),
            stream_tokens(out) == concat(all.take(i as int)),
    {
        assert(all.take(i + 1).drop_last() =~= all.take(i as int));
        assert(views(fields@)[i as int] == fields@[i as int]@);
        assert(option_list(updates@)[i as int] == tokens_in(updates@[i as int]));
        let ghost before = stream_tokens(out);
        match &updates[i] {
            Some(expr) => {
                append(&mut out, &make_assignment(&fields[i], expr, i, site));
            },
            None => {
                assert(before + Seq::<Tree>::empty() =~= before);
            },
        }
    }
    assert(all.take(fields.len() as int) =~= all);
    out
}

/// What the templates for writing name.
fn make_write_slots(scope: &Scope) -> (slots: Vec<Slot>)
    ensures
        views(slots@) == write_slots(scope@),
{
    let slots = vec![
        Slot { name: "deku", tokens: copied(&scope.deku) },
        Slot { name: "target", tokens: copied(&scope.target) },
    ];
    assert(views(slots@) =~= write_slots(scope@));
    slots
}

/// How a value is written with a context.
fn make_writer_body(scope: &Scope, ctx: &TokenStream, site: Span) -> (out: TokenStream)
    ensures
        stream_tokens(out) == writer_body(scope@, stream_tokens(*ctx), site),
{
    proof {
        reveal_strlit("__dg_mirror");
    }
    let mut slots = make_write_slots(scope);
    let ghost before = slots@;
    slots.push(Slot { name: "ctx", tokens: copied(ctx) });
    assert(views(slots@) =~= views(before).push(("ctx"@, stream_tokens(*ctx))));
    let mut inner = make_binding(
        &make_word("__dg_mirror", site),
        &make_construction(scope, site),
        site,
    );
    append(&mut inner, &fill(WRITER_CALL, &slots, site));
    let mut out = fill(WRITER_SIGNATURE, &slots, site);
    append(&mut out, &enclose(Delim::Brace, &inner, site));
    out
}

/// `DekuWriter` for a context.
fn make_writer(scope: &Scope, ctx: &TokenStream, site: Span) -> (out: TokenStream)
    ensures
        stream_tokens(out) == writer(scope@, stream_tokens(*ctx), site),
{
    proof {
        reveal_strlit("DekuWriter");
    }
    let args = vec![copied(ctx)];
    assert(stream_list(args@) =~= seq![stream_tokens(*ctx)]);
    make_impl(
        &in_angles(&scope.params, site),
        &make_deku_trait(&scope.deku, "DekuWriter", &args, site),
        &scope.target,
        &scope.where_clause,
        &make_writer_body(scope, ctx, site),
        site,
    )
}

/// `DekuUpdate`.
fn make_updater(scope: &Scope, updates: &Vec<Option<TokenStream>>, site: Span) -> (out: TokenStream)
    requires
        updates.len() == scope.fields.len(),
    ensures
        stream_tokens(out) == updater(scope@, option_list(updates@), site),
{
    proof {
        reveal_strlit("DekuUpdate");
    }
    let mut inner = make_fixed(UPDATE_USES, site);
    append(&mut inner, &make_assignments(&scope.fields, updates, site));
    append(&mut inner, &make_fixed(RESULT_OK, site));
    let nothing = enclose(Delim::Paren, &new_stream(), site);
    append(&mut inner, &enclose(Delim::Paren, &nothing, site));
    let mut body = fill(UPDATE_SIGNATURE, &make_write_slots(scope), site);
    append(&mut body, &enclose(Delim::Brace, &inner, site));
    let args: Vec<TokenStream> = Vec::new();
    assert(stream_list(args@) =~= Seq::empty());
    make_impl(
        &in_angles(&scope.params, site),
        &make_deku_trait(&scope.deku, "DekuUpdate", &args, site),
        &scope.target,
        &scope.where_clause,
        &body,
        site,
    )
}

/// `DekuContainerWrite`, and `TryFrom` into bytes.
fn make_write_container(scope: &Scope, site: Span) -> (out: TokenStream)
    ensures
        stream_tokens(out) == write_container(scope@, site),
{
    proof {
        reveal_strlit("DekuContainerWrite");
    }
    let generics = in_angles(&scope.params, site);
    let args: Vec<TokenStream> = Vec::new();
    assert(stream_list(args@) =~= Seq::empty());
    let mut out = make_impl(
        &generics,
        &make_deku_trait(&scope.deku, "DekuContainerWrite", &args, site),
        &scope.target,
        &scope.where_clause,
        &new_stream(),
        site,
    );
    let mut inner = make_fixed(ALLOC, site);
    append(
        &mut inner,
        &make_impl(
            &generics,
            &make_try_from(&scope.target, site),
            &make_fixed(BYTES, site),
            &scope.where_clause,
            &fill(WRITE_BYTES, &make_write_slots(scope), site),
            site,
        ),
    );
    append(&mut out, &make_const(&inner, site));
    out
}

/// The parameters of the write mirror.
fn make_write_generics(params: &Vec<TokenStream>, site: Span) -> (out: TokenStream)
    ensures
        stream_tokens(out) == write_generics(stream_list(params@), site),
{
    proof {
        reveal_strlit("__dg_ref");
    }
    let mut out = make_mark('<', site);
    append(&mut out, &make_lifetime("__dg_ref", site));
    append(&mut out, &make_mark(',', site));
    append(&mut out, &comma_separated(params, site));
    append(&mut out, &make_mark('>', site));
    out
}

/// The write mirror, whose fields have the given attributes, and the impls for
/// writing, with the given expressions in `DekuUpdate`.
pub fn emit_write(
    scope: &Scope,
    mirrors: &Vec<Vec<TokenStream>>,
    updates: &Vec<Option<TokenStream>>,
    site: Span,
) -> (out: TokenStream)
    requires
        mirrors.len() == scope.fields.len(),
        updates.len() == scope.fields.len(),
    ensures
        stream_tokens(out) == write_impls(
            scope@,
            stream_lists(mirrors@),
            option_list(updates@),
            site,
        ),
{
    proof {
        reveal_strlit("DekuWrite");
        reveal_strlit("__DekuGenericWrite");
    }
    let fields = make_mirror_fields(&scope.fields, mirrors, true, site);
    let generics = make_write_generics(&scope.params, site);
    let mut out = mirror_struct(scope, "DekuWrite", "__DekuGenericWrite", &generics, &fields, site);
    append(&mut out, &fill_per_ctx(scope, MirrorKind::Write, site));
    append(&mut out, &make_updater(scope, updates, site));
    let ghost before = stream_tokens(out);
    if scope.unit_ctx {
        append(&mut out, &make_write_container(scope, site));
    } else {
        assert(before + Seq::<Tree>::empty() =~= before);
    }
    out
}

} // verus!
