use deku_generic::{
    __deku_generic_impl, deku_generic, impl_deku_read, impl_deku_read_write, impl_deku_write,
};
use deku_generic::expand::{is_phantom_data, only_deku_attrs, without_deku_attrs};
use deku_generic::item::read_struct;
use deku_generic::stream::respan;
use proc_macro2::{Delimiter, Group, Span, TokenStream, TokenTree};

fn tokens(text: &str) -> TokenStream {
    text.parse().unwrap()
}

/// The text of a stream without its blanks.
fn squeeze(stream: &TokenStream) -> String {
    stream.to_string().split_whitespace().collect()
}

fn assert_expands(out: TokenStream, text: &str) {
    assert_eq!(squeeze(&out), squeeze(&tokens(text)));
    assert!(syn::parse2::<syn::File>(out).is_ok());
}

const READ_FOO: &str = r#"
const _: () = {
    #[allow(dead_code, non_camel_case_types)]
    type __DekuGenericArg0 = Raw;
    const _: () = {
        #[allow(dead_code, non_camel_case_types)]
        type T = __DekuGenericArg0;

        #[derive(::deku_generic::__private::deku::DekuRead)]
        #[deku(endian = "big")]
        #[allow(dead_code, non_camel_case_types, non_snake_case, clippy::all)]
        struct __DekuGenericRead {
            #[deku(bits = 4)] kind: u8,
            #[deku(count = "len", cond = "*kind == 1")] data: Vec<u8>,
            #[deku(skip)] _state: PhantomData<T>,
        }

        #[automatically_derived]
        impl<'__deku> ::deku_generic::__private::deku::DekuReader<'__deku, ()> for Foo<Raw> {
            #[inline]
            fn from_reader_with_ctx<__R: ::deku_generic::__private::deku::no_std_io::Read + ::deku_generic::__private::deku::no_std_io::Seek>(
                __deku_reader: &mut ::deku_generic::__private::deku::reader::Reader<__R>,
                __deku_ctx: (),
            ) -> ::core::result::Result<Self, ::deku_generic::__private::deku::DekuError> {
                let __dg_mirror = <__DekuGenericRead as ::deku_generic::__private::deku::DekuReader<'__deku, ()>>::from_reader_with_ctx(
                    __deku_reader,
                    __deku_ctx,
                )?;
                ::core::result::Result::Ok({
                    let __DekuGenericRead { kind, data, _state } = __dg_mirror;
                    Self { kind, data, _state }
                })
            }
        }

        #[automatically_derived]
        impl<'__deku> ::deku_generic::__private::deku::DekuContainerRead<'__deku> for Foo<Raw> {
            #[inline]
            fn from_reader<'__dg_r, __R: ::deku_generic::__private::deku::no_std_io::Read + ::deku_generic::__private::deku::no_std_io::Seek>(
                __deku_input: (&'__dg_r mut __R, usize),
            ) -> ::core::result::Result<(usize, Self), ::deku_generic::__private::deku::DekuError> {
                let __deku_reader = &mut ::deku_generic::__private::deku::reader::Reader::new(__deku_input.0);
                if __deku_input.1 != 0 {
                    __deku_reader.skip_bits(__deku_input.1, ::deku_generic::__private::deku::ctx::Order::default())?;
                }
                let __deku_value = <Self as ::deku_generic::__private::deku::DekuReader<'_, ()>>::from_reader_with_ctx(__deku_reader, ())?;
                ::core::result::Result::Ok((__deku_reader.bits_read, __deku_value))
            }

            #[inline]
            fn from_bytes(
                __deku_input: (&'__deku [u8], usize),
            ) -> ::core::result::Result<((&'__deku [u8], usize), Self), ::deku_generic::__private::deku::DekuError> {
                let mut __deku_cursor = ::deku_generic::__private::deku::no_std_io::Cursor::new(__deku_input.0);
                let __deku_reader = &mut ::deku_generic::__private::deku::reader::Reader::new(&mut __deku_cursor);
                if __deku_input.1 != 0 {
                    __deku_reader.skip_bits(__deku_input.1, ::deku_generic::__private::deku::ctx::Order::default())?;
                }
                let __deku_value = <Self as ::deku_generic::__private::deku::DekuReader<'_, ()>>::from_reader_with_ctx(__deku_reader, ())?;
                let __deku_bits_read = __deku_reader.bits_read;
                let __deku_idx = (__deku_bits_read - (__deku_bits_read % 8)) / 8;
                let ::core::option::Option::Some(__deku_rest) = __deku_input.0.get(__deku_idx..) else {
                    return ::core::result::Result::Err(::deku_generic::__private::deku::DekuError::Incomplete(
                        ::deku_generic::__private::deku::error::NeedSize::new(8 * (__deku_idx - __deku_input.0.len())),
                    ));
                };
                ::core::result::Result::Ok(((__deku_rest, __deku_bits_read % 8), __deku_value))
            }
        }

        #[automatically_derived]
        impl<'__deku> ::core::convert::TryFrom<&'__deku [u8]> for Foo<Raw> {
            type Error = ::deku_generic::__private::deku::DekuError;

            #[inline]
            fn try_from(__deku_input: &'__deku [u8]) -> ::core::result::Result<Self, Self::Error> {
                let __deku_total_len = __deku_input.len();
                let mut __deku_cursor = ::deku_generic::__private::deku::no_std_io::Cursor::new(__deku_input);
                let (__deku_bits_read, __deku_res) =
                    <Self as ::deku_generic::__private::deku::DekuContainerRead<'_>>::from_reader((&mut __deku_cursor, 0))?;
                let __deku_bytes_read = __deku_bits_read / 8;
                if __deku_bytes_read < __deku_total_len {
                    return ::core::result::Result::Err(::deku_generic::__private::deku::deku_error!(
                        ::deku_generic::__private::deku::DekuError::Parse,
                        "Too much data",
                        "Read {} but total length was {}",
                        __deku_bytes_read,
                        __deku_total_len
                    ));
                }
                if __deku_bytes_read > __deku_total_len {
                    return ::core::result::Result::Err(::deku_generic::__private::deku::DekuError::Incomplete(
                        ::deku_generic::__private::deku::error::NeedSize::new(__deku_bits_read - (__deku_total_len * 8)),
                    ));
                }
                ::core::result::Result::Ok(__deku_res)
            }
        }
    };
};
"#;

const WRITE_FOO: &str = r#"
const _: () = {
    #[allow(dead_code, non_camel_case_types)]
    type __DekuGenericArg0 = Raw;
    const _: () = {
        #[allow(dead_code, non_camel_case_types)]
        type T = __DekuGenericArg0;

        #[derive(::deku_generic::__private::deku::DekuWrite)]
        #[deku(endian = "big")]
        #[allow(dead_code, non_camel_case_types, non_snake_case, clippy::all)]
        struct __DekuGenericWrite<'__dg_ref,> {
            #[deku(bits = 4)] kind: &'__dg_ref u8,
            #[deku(count = "len", cond = "{ let kind = *kind; (*kind == 1) }")] data: &'__dg_ref Vec<u8>,
            #[deku(skip)] _state: &'__dg_ref PhantomData<T>,
        }

        #[automatically_derived]
        impl ::deku_generic::__private::deku::DekuWriter<()> for Foo<Raw> {
            #[inline]
            fn to_writer<__W: ::deku_generic::__private::deku::no_std_io::Write + ::deku_generic::__private::deku::no_std_io::Seek>(
                &self,
                __deku_writer: &mut ::deku_generic::__private::deku::writer::Writer<__W>,
                __deku_ctx: (),
            ) -> ::core::result::Result<(), ::deku_generic::__private::deku::DekuError> {
                let __dg_mirror = __DekuGenericWrite { kind: &self.kind, data: &self.data, _state: &self._state };
                ::deku_generic::__private::deku::DekuWriter::<()>::to_writer(&__dg_mirror, __deku_writer, __deku_ctx)
            }
        }

        #[automatically_derived]
        impl ::deku_generic::__private::deku::DekuUpdate for Foo<Raw> {
            #[inline]
            fn update(&mut self) -> ::core::result::Result<(), ::deku_generic::__private::deku::DekuError> {
                #[allow(unused_imports)]
                use ::core::convert::TryInto;
                self.kind = (self.data.len()).try_into()?;
                ::core::result::Result::Ok(())
            }
        }

        #[automatically_derived]
        impl ::deku_generic::__private::deku::DekuContainerWrite for Foo<Raw> {}

        const _: () = {
            extern crate alloc;

            #[automatically_derived]
            impl ::core::convert::TryFrom<Foo<Raw>> for alloc::vec::Vec<u8> {
                type Error = ::deku_generic::__private::deku::DekuError;

                #[inline]
                fn try_from(__deku_input: Foo<Raw>) -> ::core::result::Result<Self, Self::Error> {
                    ::deku_generic::__private::deku::DekuContainerWrite::to_bytes(&__deku_input)
                }
            }
        };
    };
};
"#;

const CAPTURED_FOO: &str = r#"
#[deku(endian = "big")]
pub struct Foo<T> {
    #[deku(bits = 4, update = "self.data.len()")] kind: u8,
    #[deku(count = "len", cond = "*kind == 1")] pub data: Vec<u8>,
    _state: PhantomData<T>,
}
"#;

const FOO: &str = r#"
#[derive(Debug)]
#[deku(endian = "big")]
pub struct Foo<T> {
    #[deku(bits = 4, update = "self.data.len()")]
    /// The kind.
    kind: u8,
    #[deku(count = "len", cond = "*kind == 1")]
    pub data: Vec<u8>,
    _state: PhantomData<T>,
}
"#;

const PLAIN_FOO: &str = r#"
#[derive(Debug)]
pub struct Foo<T> {
    /// The kind.
    kind: u8,
    pub data: Vec<u8>,
    _state: PhantomData<T>,
}
"#;

fn helper_macro(name: &str, crate_path: &str, captured: &str) -> String {
    format!(
        "#[doc(hidden)]
        #[allow(unused_macros)]
        macro_rules! {name} {{
            ($($args:tt)*) => {{
                {crate_path}::__deku_generic_impl! {{ $($args)* ; {crate_path} ; {captured} }}
            }};
        }}
        #[doc(hidden)]
        #[allow(unused_imports)]
        pub(crate) use {name};"
    )
}

#[test]
fn attribute_without_requests() {
    let helper = helper_macro("__deku_generic_Foo", "::deku_generic", CAPTURED_FOO);
    assert_expands(
        deku_generic(tokens(""), tokens(FOO)),
        &format!("{PLAIN_FOO} {helper}"),
    );
}

#[test]
fn attribute_with_requests() {
    let helper = helper_macro("__deku_generic_Foo", "::deku_generic", CAPTURED_FOO);
    assert_expands(
        deku_generic(tokens("read(Foo<Raw>), write(Foo<Raw>),"), tokens(FOO)),
        &format!("{PLAIN_FOO} {helper} {READ_FOO} {WRITE_FOO}"),
    );
    assert_expands(
        deku_generic(tokens("read_write(Foo<Raw>)"), tokens(FOO)),
        &format!("{PLAIN_FOO} {helper} {READ_FOO} {WRITE_FOO}"),
    );
}

#[test]
fn attribute_with_another_crate_path() {
    let text = squeeze(&deku_generic(
        tokens("crate = \"my::reexports\", read(Unit)"),
        tokens("struct Unit;"),
    ));
    assert!(text.contains("my::reexports::__deku_generic_impl!{$($args)*;my::reexports;structUnit;}"));
    assert!(text.contains("#[derive(my::reexports::__private::deku::DekuRead)]"));
    assert!(!text.contains("::deku_generic::"));
}

#[test]
fn arguments_in_invisible_delimiters() {
    let bare = |text: &str| TokenTree::Group(Group::new(Delimiter::None, tokens(text)));
    let mut attr = tokens("crate =");
    attr.extend([bare("\"dg\"")]);
    attr.extend(tokens(","));
    attr.extend([bare("read")]);
    attr.extend(tokens("(Unit)"));
    assert_eq!(
        squeeze(&deku_generic(attr, tokens("struct Unit;"))),
        squeeze(&deku_generic(tokens("crate = \"dg\", read(Unit)"), tokens("struct Unit;")))
    );
    let mut ty = TokenStream::new();
    ty.extend([bare("PhantomData<T>")]);
    assert!(is_phantom_data(&ty));
}

#[test]
fn hidden_input_in_invisible_delimiters() {
    let bare = |inner: TokenStream| TokenTree::Group(Group::new(Delimiter::None, inner));
    let mut twice = TokenStream::new();
    twice.extend([bare(TokenStream::new()), bare(tokens("@"))]);
    let mut input = TokenStream::new();
    input.extend([bare(twice), bare(tokens("read_write"))]);
    input.extend(tokens("Foo<Raw>"));
    input.extend([bare(TokenStream::new()), bare(tokens(";"))]);
    input.extend(tokens("::deku_generic"));
    input.extend([bare(tokens(";"))]);
    input.extend(tokens(CAPTURED_FOO));
    assert_expands(__deku_generic_impl(input), &format!("{READ_FOO} {WRITE_FOO}"));
    let mut input = TokenStream::new();
    input.extend([bare(tokens("@ read Foo<Raw>"))]);
    input.extend(tokens(&format!("; ::deku_generic ; {CAPTURED_FOO}")));
    assert_expands(__deku_generic_impl(input), READ_FOO);
}

#[test]
fn strings_of_other_attributes_are_left_alone() {
    let item = "#[doc(alias = \"it's (\")] struct Unit { #[note(cond = \"[\", update = \"'\")] a: u8 }";
    let bare = "struct Unit { a: u8 }";
    let out = deku_generic(tokens("read_write(Unit)"), tokens(item));
    let impls = squeeze(&__deku_generic_impl(tokens(&format!(
        "@read_write Unit ; ::deku_generic ; {bare}"
    ))));
    assert!(syn::parse2::<syn::File>(out.clone()).is_ok());
    let helper = helper_macro("__deku_generic_Unit", "::deku_generic", bare);
    assert_eq!(squeeze(&out), format!("{}{}{impls}", squeeze(&tokens(item)), squeeze(&tokens(&helper))));
}

#[test]
fn requests_through_the_helper() {
    assert_eq!(
        squeeze(&impl_deku_read(tokens("crate::proto::Foo<Raw>"))),
        "crate::proto::__deku_generic_Foo!{@readcrate::proto::Foo<Raw>}"
    );
    assert_eq!(
        squeeze(&impl_deku_write(tokens("Foo<'_, Raw, 4>"))),
        "__deku_generic_Foo!{@writeFoo<'_,Raw,4>}"
    );
    assert_eq!(
        squeeze(&impl_deku_read_write(tokens("r#type"))),
        "__deku_generic_type!{@read_writer#type}"
    );
    let input = |mode: &str| tokens(&format!("@{mode} Foo<Raw> ; ::deku_generic ; {CAPTURED_FOO}"));
    assert_expands(__deku_generic_impl(input("read")), READ_FOO);
    assert_expands(__deku_generic_impl(input("write")), WRITE_FOO);
    assert_expands(
        __deku_generic_impl(input("read_write")),
        &format!("{READ_FOO} {WRITE_FOO}"),
    );
}

#[test]
fn captured_struct_gives_the_same_impls() {
    let whole = format!("@read_write Foo<Raw> ; ::deku_generic ; {FOO}");
    let captured = format!("@read_write Foo<Raw> ; ::deku_generic ; {CAPTURED_FOO}");
    assert_eq!(
        squeeze(&__deku_generic_impl(tokens(&whole))),
        squeeze(&__deku_generic_impl(tokens(&captured)))
    );
}

#[test]
fn attributes_are_recorded_and_stripped() {
    let Ok(item) = read_struct(&tokens(FOO)) else {
        panic!("no struct");
    };
    assert_eq!(squeeze(&only_deku_attrs(&item)), squeeze(&tokens(CAPTURED_FOO)));
    assert_eq!(squeeze(&without_deku_attrs(&item)), squeeze(&tokens(PLAIN_FOO)));
    let pair = "#[deku(endian = \"little\")] struct Pair<T, U>(#[deku(bits = 12)] pub T, #[a] U,) where T: Copy;";
    let Ok(item) = read_struct(&tokens(pair)) else {
        panic!("no struct");
    };
    assert_eq!(
        squeeze(&only_deku_attrs(&item)),
        squeeze(&tokens(
            "#[deku(endian = \"little\")] struct Pair<T, U>(#[deku(bits = 12)] pub T, U,) where T: Copy;"
        ))
    );
    assert_eq!(
        squeeze(&without_deku_attrs(&item)),
        squeeze(&tokens("struct Pair<T, U>(pub T, #[a] U,) where T: Copy;"))
    );
}

#[test]
fn tuple_struct() {
    let out = __deku_generic_impl(tokens(
        "@read_write Pair<u16, u8> ; ::dg ;
        #[deku(endian = \"little\")]
        struct Pair<T, U>(#[deku(bits = 12)] T, #[deku(assert = \"*field_0 > 1\", update = \"self.0\")] U) where T: Copy;",
    ));
    let text = squeeze(&out);
    assert!(syn::parse2::<syn::File>(out).is_ok());
    assert!(text.contains(
        "struct__DekuGenericRead(#[deku(bits=12)]T,#[deku(assert=\"*field_0>1\")]U,)whereT:Copy;"
    ));
    assert!(text.contains(
        "let__DekuGenericRead(__dg_field_0,__dg_field_1)=__dg_mirror;Self(__dg_field_0,__dg_field_1)"
    ));
    assert!(text.contains("struct__DekuGenericWrite<'__dg_ref,>(#[deku(bits=12)]&'__dg_refT,"));
    assert!(text.contains("{letfield_0=*field_0;(*field_0>1)}"));
    assert!(text.contains("__DekuGenericWrite(&self.0,&self.1)"));
    assert!(text.contains("self.1=(self.0).try_into()?;"));
    assert!(text.contains("forPair<u16,u8>whereT:Copy{"));
}

#[test]
fn unit_struct() {
    let out = __deku_generic_impl(tokens("@read_write Unit ; ::dg ; struct Unit;"));
    let text = squeeze(&out);
    assert!(syn::parse2::<syn::File>(out).is_ok());
    assert!(text.contains("struct__DekuGenericRead;"));
    assert!(text.contains("Ok({let_=__dg_mirror;Self})"));
    assert!(text.contains("let__dg_mirror=__DekuGenericWrite;"));
    assert!(text.contains("struct__DekuGenericWrite<'__dg_ref,>;"));
}

#[test]
fn defaults_and_consts() {
    let item = "struct Buf<T = A, const N: usize = 2> { data: [u8; N], _s: PhantomData<T> }";
    let expand = |target: &str| {
        squeeze(&__deku_generic_impl(tokens(&format!("@read {target} ; ::dg ; {item}"))))
    };
    let short = expand("Buf");
    let long = expand("Buf<A, 2>");
    assert_eq!(short.replace("forBuf{", "forBuf<A,2>{"), long);
    assert!(long.contains("type__DekuGenericArg0=A;"));
    assert!(long.contains("const__DEKU_GENERIC_ARG_1:usize=2;"));
    assert!(long.contains("typeT=__DekuGenericArg0;"));
    assert!(long.contains("constN:usize=__DEKU_GENERIC_ARG_1;"));
    assert!(expand("Buf<B, LEN>").contains("const__DEKU_GENERIC_ARG_1:usize=LEN;"));
    assert!(expand("Buf<B, { 1 + 2 }>").contains("const__DEKU_GENERIC_ARG_1:usize={1+2};"));
}

#[test]
fn lifetimes_written_or_omitted() {
    let item = "#[deku(ctx = \"endian: Endian\")]
        struct Borrowed<'a, T> {
            #[deku(endian = \"endian\")] len: u16,
            #[deku(count = \"len\")] data: Cow<'a, Vec<u8>>,
            _s: PhantomData<T>,
        }";
    let expand = |target: &str| {
        squeeze(&__deku_generic_impl(tokens(&format!("@read_write {target} ; ::dg ; {item}"))))
    };
    let text = expand("Borrowed<'a, A>");
    assert_eq!(text, expand("Borrowed<A>"));
    assert_eq!(text, expand("Borrowed<'_, A>"));
    assert_eq!(text, expand("Borrowed<A, 'a>"));
    assert!(text.contains("impl<'a>::dg::__private::deku::DekuReader<'a,Endian>forBorrowed<'a,A>{"));
    assert!(text.contains("struct__DekuGenericRead<'a>{"));
    assert!(text.contains("struct__DekuGenericWrite<'__dg_ref,'a>{"));
    assert!(text.contains("impl<'a>::dg::__private::deku::DekuWriter<Endian>forBorrowed<'a,A>{"));
    assert!(!text.contains("DekuContainer"));
    assert!(!text.contains("TryFrom<"));
}

#[test]
fn contexts() {
    let expand = |attr: &str| {
        squeeze(&__deku_generic_impl(tokens(&format!(
            "@read_write Foo<A> ; ::dg ; {attr} struct Foo<T> {{ _s: PhantomData<T> }}"
        ))))
    };
    let none = expand("");
    assert!(none.contains("DekuReader<'__deku,()>for"));
    assert!(none.contains("DekuContainerRead<'__deku>for"));
    assert!(none.contains("DekuContainerWritefor"));
    let one = expand("#[deku(ctx = \"n: usize\")]");
    assert!(one.contains("DekuReader<'__deku,usize>for"));
    assert!(one.contains("__deku_ctx:usize,"));
    assert!(!one.contains("DekuContainer"));
    let two = expand("#[deku(ctx = \"e: Endian, n: usize\")]");
    assert!(two.contains("DekuReader<'__deku,(Endian,usize)>for"));
    assert!(two.contains("DekuWriter<(Endian,usize)>for"));
    let default = expand("#[deku(ctx = \"e: Endian\", ctx_default = \"Endian::Little\")]");
    assert!(default.contains("DekuReader<'__deku,Endian>for"));
    assert!(default.contains("DekuReader<'__deku,()>for"));
    assert!(default.contains("DekuWriter<()>for"));
    assert!(default.contains("DekuContainerRead<'__deku>for"));
    assert!(default.contains("DekuContainerWritefor"));
    let empty = expand("#[deku(ctx = \"\")]");
    assert!(empty.contains("DekuReader<'__deku,()>for"));
    assert!(!empty.contains("DekuContainer"));
}

/// The attributes of the field `b` in the write mirror.
fn write_attrs(attrs: &str) -> String {
    let text = squeeze(&__deku_generic_impl(tokens(&format!(
        "@write Foo ; ::dg ; struct Foo {{ a: u8, {attrs} b: u8, c: u8 }}"
    ))));
    let start = text.find("a:&'__dg_refu8,").unwrap() + "a:&'__dg_refu8,".len();
    let end = text.find("b:&'__dg_refu8").unwrap();
    text[start..end].to_string()
}

#[test]
fn expressions_for_writing() {
    assert_eq!(write_attrs(""), "");
    assert_eq!(write_attrs("#[deku(cond = \"x > 1\")]"), "#[deku(cond=\"x>1\")]");
    assert_eq!(
        write_attrs("#[deku(cond = \"f([*c], a)\")]"),
        "#[deku(cond=\"{leta=*a;letc=*c;(f([*c],a))}\")]"
    );
    assert_eq!(write_attrs("#[deku(count = \"a\", skip)]"), "#[deku(count=\"a\",skip)]");
    assert_eq!(write_attrs("#[deku(assert_eq = \"1\")]"), "#[deku(assert_eq=\"&(1)\")]");
    assert_eq!(
        write_attrs("#[deku(assert_eq = \"*a\")]"),
        "#[deku(assert_eq=\"&({leta=*a;(*a)})\")]"
    );
    assert_eq!(write_attrs("#[deku(endian = \"big\")]"), "#[deku(endian=\"big\")]");
    assert_eq!(write_attrs("#[deku(endian = \"a\")]"), "#[deku(endian=\"{leta=*a;(a)}\")]");
    assert_eq!(
        write_attrs("#[deku(ctx = \"*a, 1, c\")]"),
        "#[deku(ctx=\"{leta=*a;(*a)},1,{letc=*c;(c)}\")]"
    );
    assert_eq!(
        write_attrs("#[deku(writer = \"w(b)\")] #[deku(update = \"1\")] #[deku(bits = 4, update = \"2\")]"),
        "#[deku(writer=\"{letb=*b;(w(b))}\")]#[deku(bits=4)]"
    );
    for name in [
        "writer",
        "cond",
        "assert",
        "bits",
        "bytes",
        "pad_bits_before",
        "pad_bytes_before",
        "pad_bits_after",
        "pad_bytes_after",
        "seek_from_current",
        "seek_from_end",
        "seek_from_start",
    ] {
        assert_eq!(
            write_attrs(&format!("#[deku({name} = \"a\")]")),
            format!("#[deku({name}=\"{{leta=*a;(a)}}\")]")
        );
    }
}

#[test]
fn mirroring_again() {
    let attrs = "#[deku(cond = \"*a == 1\", update = \"1\")] #[deku(update = \"2\")] #[deku(ctx = \"c\")]";
    let text = squeeze(&__deku_generic_impl(tokens(&format!(
        "@read Foo ; ::dg ; struct Foo {{ a: u8, {attrs} b: u8, c: u8 }}"
    ))));
    let kept = "#[deku(cond = \"*a == 1\")] #[deku(ctx = \"c\")]";
    assert!(text.contains(&format!("a:u8,{}b:u8,c:u8,", squeeze(&tokens(kept)))));
    let again = squeeze(&__deku_generic_impl(tokens(&format!(
        "@read Foo ; ::dg ; struct Foo {{ a: u8, {kept} b: u8, c: u8 }}"
    ))));
    assert_eq!(again, text);
    assert_eq!(write_attrs(attrs), write_attrs(kept));
}

#[test]
fn first_update_counts() {
    let text = squeeze(&__deku_generic_impl(tokens(
        "@write Foo ; ::dg ; struct Foo { #[deku(update = \"1\", update = 4)] #[deku] a: u8 }",
    )));
    assert!(text.contains("expectedattributearguments"));
    let text = squeeze(&__deku_generic_impl(tokens(
        "@write Foo ; ::dg ; struct Foo { #[deku(update = \"1\")] #[deku(update = \"2\")] a: u8 }",
    )));
    assert!(text.contains("self.a=(1).try_into()?;"));
    assert!(!text.contains("(2)"));
}

#[test]
fn phantom_data() {
    assert!(is_phantom_data(&tokens("PhantomData<T>")));
    assert!(is_phantom_data(&tokens("core::marker::PhantomData<T>")));
    assert!(is_phantom_data(&tokens("((PhantomData<T>))")));
    assert!(!is_phantom_data(&tokens("(PhantomData<T>,)")));
    assert!(!is_phantom_data(&tokens("()")));
    assert!(!is_phantom_data(&tokens("Vec<PhantomData<T>>")));
    assert!(!is_phantom_data(&tokens("&PhantomData<T>")));
    let text = squeeze(&__deku_generic_impl(tokens(
        "@read Foo<A> ; ::dg ; struct Foo<T> { #[deku(default = \"x\")] a: PhantomData<T>, b: (PhantomData<T>), c: u8 }",
    )));
    assert!(text.contains(
        "{#[deku(default=\"x\")]a:PhantomData<T>,#[deku(skip)]b:(PhantomData<T>),c:u8,}"
    ));
}

#[test]
fn respan_keeps_the_text() {
    let stream = tokens("a::b!(c, [1, \"x\"]; 'd') { e }");
    let once = respan(&stream, Span::call_site());
    assert_eq!(once.to_string(), stream.to_string());
    assert_eq!(respan(&once, Span::call_site()).to_string(), stream.to_string());
}

#[test]
fn only_requested_states_are_readable() {
    let text = squeeze(&deku_generic(
        tokens("read(Foo<Unvalidated>), write(Foo<Unvalidated>, Foo<Validated>)"),
        tokens("#[derive(Debug, PartialEq)] pub struct Foo<T> { _state: PhantomData<T>, }"),
    ));
    assert_eq!(text.matches("DekuReader<'__deku,()>forFoo<Unvalidated>").count(), 1);
    assert_eq!(text.matches("DekuReader<'__deku,()>forFoo<Validated>").count(), 0);
    assert_eq!(text.matches("DekuWriter<()>forFoo<Unvalidated>").count(), 1);
    assert_eq!(text.matches("DekuWriter<()>forFoo<Validated>").count(), 1);
}
