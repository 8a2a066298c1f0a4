use deku_generic::bind::{bind, Path};
use deku_generic::{
    __deku_generic_impl, deku_generic, impl_deku_read, impl_deku_read_write, impl_deku_write,
};
use deku_generic::expand::only_deku_attrs;
use deku_generic::item::read_struct;
use proc_macro2::{Delimiter, Group, Span, TokenStream, TokenTree};

fn tokens(text: &str) -> TokenStream {
    text.parse().unwrap()
}

/// The text of a stream without its blanks.
fn squeeze(stream: &TokenStream) -> String {
    stream.to_string().split_whitespace().collect()
}

/// The message of the error that a stream starts with, and what follows it.
fn split_error(stream: TokenStream) -> (Option<String>, TokenStream) {
    let trees: Vec<TokenTree> = stream.clone().into_iter().collect();
    if trees.len() < 8 || trees[5].to_string() != "compile_error" {
        return (None, stream);
    }
    let path: TokenStream = trees[..7].iter().cloned().collect();
    assert_eq!(squeeze(&path), "::core::compile_error!");
    let TokenTree::Group(group) = &trees[7] else {
        panic!("no message");
    };
    let message: syn::LitStr = syn::parse2(group.stream()).unwrap();
    (Some(message.value()), trees[8..].iter().cloned().collect())
}

/// The error of the attribute. The struct is emitted after it.
fn attribute_error(attr: &str, item: &str, plain: &str) -> String {
    let (message, rest) = split_error(deku_generic(tokens(attr), tokens(item)));
    assert_eq!(squeeze(&rest), squeeze(&tokens(plain)));
    message.unwrap()
}

/// What a call of the helper macro comes to.
fn through_helper(call: TokenStream, item: &str) -> TokenStream {
    let (message, call) = split_error(call);
    assert_eq!(message, None);
    let Some(TokenTree::Group(args)) = call.into_iter().last() else {
        panic!("no arguments");
    };
    let Ok(parsed) = read_struct(&tokens(item)) else {
        panic!("no struct");
    };
    let mut input = args.stream();
    input.extend(tokens("; ::deku_generic ;"));
    input.extend(only_deku_attrs(&parsed));
    __deku_generic_impl(input)
}

/// The error of a request. The attribute accepts the struct.
fn request_error(call: TokenStream, item: &str) -> String {
    let (message, _) = split_error(deku_generic(tokens(""), tokens(item)));
    assert_eq!(message, None);
    let (message, rest) = split_error(through_helper(call, item));
    assert!(rest.is_empty());
    message.unwrap()
}

const PLAIN: &str = "pub struct Foo<T> { a: u8, _state: PhantomData<T>, }";

#[test]
fn compile_fail() {
    // bad_expression
    let message = attribute_error(
        "",
        "pub struct Foo<T> { #[deku(cond = \"a == (1\")] a: u8, _state: PhantomData<T>, }",
        PLAIN,
    );
    assert!(!message.is_empty());

    // crate_not_a_string
    assert_eq!(attribute_error("crate = 4", PLAIN, PLAIN), "expected string literal");

    // crate_twice
    assert_eq!(
        attribute_error("crate = \"deku_generic\", crate = \"deku_generic\"", PLAIN, PLAIN),
        "`crate` given more than once"
    );

    // enum
    assert_eq!(
        attribute_error("", "pub enum Packet<T> { A(T), }", "pub enum Packet<T> { A(T), }"),
        "expected `struct`"
    );

    // id_type_on_struct
    assert_eq!(
        attribute_error(
            "",
            "#[deku(id_type = \"u8\")] pub struct Foo<T> { a: u8, _state: PhantomData<T>, }",
            PLAIN,
        ),
        "deku_generic only supports structs; enum attributes are not allowed"
    );

    // lifetime_name
    assert_eq!(
        request_error(
            impl_deku_read(tokens("Foo<'static, Raw>")),
            "#[deku(ctx = \"n: usize\")]
            pub struct Foo<'a, T> {
                #[deku(count = \"n\")]
                data: Vec<u8>,
                _state: PhantomData<&'a T>,
            }",
        ),
        "lifetime must be written as `'a` (the struct's own name) or `'_`, or omitted"
    );

    // missing_const_argument
    assert_eq!(
        request_error(
            impl_deku_read(tokens("Buf")),
            "pub struct Buf<const N: usize> { data: [u8; N], }",
        ),
        "missing argument for const parameter `N`"
    );

    // missing_type_argument
    assert_eq!(
        request_error(impl_deku_read(tokens("Foo")), PLAIN),
        "missing argument for type parameter `T`"
    );

    // temp_field
    assert_eq!(
        attribute_error(
            "",
            "pub struct Foo<T> {
                #[deku(temp)]
                len: u8,
                #[deku(count = \"len\")]
                data: Vec<u8>,
                _state: PhantomData<T>,
            }",
            "pub struct Foo<T> { len: u8, data: Vec<u8>, _state: PhantomData<T>, }",
        ),
        "`#[deku(temp)]` fields are not supported by deku_generic"
    );

    // unknown_option
    assert_eq!(
        attribute_error("parse(Foo<Raw>)", PLAIN, PLAIN),
        "unknown option `parse`; expected `read`, `write`, `read_write` or `crate = \"..\"`"
    );

    // update_not_a_string
    assert_eq!(
        request_error(
            impl_deku_write(tokens("Foo<Raw>")),
            "pub struct Foo<T> { #[deku(update = 3)] a: u8, _state: PhantomData<T>, }",
        ),
        "`update` expects a string"
    );

    // wrong_struct_name
    assert_eq!(
        attribute_error("read(Bar<Raw>)", PLAIN, PLAIN),
        "expected `Foo`, found `Bar`"
    );
}

#[test]
fn arguments_of_the_attribute() {
    assert_eq!(attribute_error("crate", PLAIN, PLAIN), "expected `=`");
    assert_eq!(attribute_error("crate \"x\"", PLAIN, PLAIN), "expected `=`");
    assert_eq!(
        attribute_error("crate =", PLAIN, PLAIN),
        "unexpected end of input, expected string literal"
    );
    assert_eq!(attribute_error("crate = \"a b\"", PLAIN, PLAIN), "unexpected token");
    assert_eq!(
        attribute_error("crate = \"a\"x", PLAIN, PLAIN),
        "unexpected suffix `x` on string literal"
    );
    assert!(!attribute_error("crate = \"(\"", PLAIN, PLAIN).is_empty());
    assert!(!attribute_error("crate = \"4\"", PLAIN, PLAIN).is_empty());
    assert_eq!(
        attribute_error("read", PLAIN, PLAIN),
        "unexpected end of input, expected parentheses"
    );
    assert_eq!(attribute_error("read[Foo<Raw>]", PLAIN, PLAIN), "expected parentheses");
    assert_eq!(
        attribute_error("read(Foo<Raw>) write(Foo<Raw>)", PLAIN, PLAIN),
        "expected `,`"
    );
    assert_eq!(attribute_error("read(Foo<A> Foo<B>)", PLAIN, PLAIN), "expected `,`");
    assert_eq!(attribute_error("4", PLAIN, PLAIN), "expected identifier");
    assert_eq!(
        attribute_error("struct", PLAIN, PLAIN),
        "expected identifier, found keyword `struct`"
    );
}

#[test]
fn empty_invisible_delimiters() {
    let error = |attr: TokenStream| split_error(deku_generic(attr, tokens(PLAIN))).0.unwrap();
    let after = |text: &str| {
        let mut attr = tokens(text);
        attr.extend([TokenTree::Group(Group::new(Delimiter::None, TokenStream::new()))]);
        attr
    };
    assert_eq!(error(after("")), "expected identifier");
    assert_eq!(error(after("read(Foo<Raw>)")), "expected `,`");
    assert_eq!(error(after("read(Foo<Raw>),")), "expected identifier");
    assert_eq!(error(after("crate")), "expected `=`");
    assert_eq!(error(after("crate =")), "expected string literal");
    assert_eq!(error(after("read")), "expected parentheses");
}

#[test]
fn settings_of_the_struct() {
    let with = |attr: &str| format!("{attr} {PLAIN}");
    assert_eq!(
        attribute_error("", &with("#[deku]"), PLAIN),
        "expected attribute arguments in parentheses: #[deku(...)]"
    );
    assert_eq!(
        attribute_error("", &with("#[deku = \"x\"]"), PLAIN),
        "expected parentheses: #[deku(...)]"
    );
    assert_eq!(attribute_error("", &with("#[deku(ctx = 4)]"), PLAIN), "`ctx` expects a string");
    assert_eq!(attribute_error("", &with("#[deku(ctx)]"), PLAIN), "`ctx` expects a string");
    assert_eq!(
        attribute_error("", &with("#[deku(ctx = \"&self\")]"), PLAIN),
        "`self` is not allowed in a deku `ctx`"
    );
    assert_eq!(
        attribute_error("", &with("#[deku(ctx = \"n: usize\"x)]"), PLAIN),
        "unexpected suffix `x` on string literal"
    );
    assert_eq!(
        attribute_error("", &with("#[deku(id = \"1\")]"), PLAIN),
        "deku_generic only supports structs; enum attributes are not allowed"
    );
    assert!(!attribute_error("", &with("#[deku(ctx = \"n usize\")]"), PLAIN).is_empty());
    assert!(!attribute_error("", &with("#[deku(ctx = \"(\")]"), PLAIN).is_empty());
    assert!(!attribute_error("", &with("#[deku(endian big)]"), PLAIN).is_empty());
}

#[test]
fn settings_of_a_field() {
    let with = |attr: &str| format!("pub struct Foo<T> {{ {attr} a: u8, _state: PhantomData<T>, }}");
    assert_eq!(
        request_error(impl_deku_write(tokens("Foo<Raw>")), &with("#[deku(ctx = \"a\"x)]")),
        "unexpected suffix `x` on string literal"
    );
    assert!(!request_error(impl_deku_write(tokens("Foo<Raw>")), &with("#[deku(ctx = \"a b\")]"))
        .is_empty());
    assert!(!attribute_error("", &with("#[deku(ctx = \"(\")]"), PLAIN).is_empty());
    assert!(!attribute_error("", &with("#[deku(assert_eq = \"(\")]"), PLAIN).is_empty());
    assert!(!attribute_error("", &with("#[deku(endian = \"(\")]"), PLAIN).is_empty());
    assert_eq!(
        request_error(
            impl_deku_write(tokens("Foo<Raw>")),
            &with("#[deku(update = \"1\"x)]"),
        ),
        "unexpected suffix `x` on string literal"
    );
    assert!(!request_error(
        impl_deku_write(tokens("Foo<Raw>")),
        &with("#[deku(update = \"(\")]"),
    )
    .is_empty());
}

#[test]
fn arguments_of_a_request() {
    let two = "pub struct Foo<'a, T, const N: usize> { a: &'a [T; N] }";
    assert_eq!(
        request_error(impl_deku_read(tokens("Foo<'a, 'b, u8, 4>")), two),
        "`Foo` has 1 lifetime parameter(s), but 2 were given"
    );
    assert_eq!(
        request_error(impl_deku_read(tokens("Foo<u8, 4, 5>")), two),
        "`Foo` has 2 type/const parameter(s), but 3 were given"
    );
    assert_eq!(
        request_error(impl_deku_read(tokens("Foo<4, 4>")), two),
        "expected a type for parameter `T`"
    );
    assert_eq!(
        request_error(impl_deku_read(tokens("Foo<X = u8>")), two),
        "unsupported generic argument"
    );
    let target = Path {
        lead: tokens(""),
        ident: tokens("Foo"),
        args: tokens("(u8)"),
        list: Ok(Vec::new()),
        tokens: tokens("Foo(u8)"),
    };
    let Err(error) = bind(&target, "Foo", &Vec::new(), Span::call_site()) else {
        panic!("no error");
    };
    assert_eq!(error.message, "expected `<...>` generic arguments");
    assert_eq!(split_error(impl_deku_read(tokens("Foo(u8)"))).0.unwrap(), "unexpected token");
    assert_eq!(
        request_error(impl_deku_read_write(tokens("Foo<u8>")), two),
        "missing argument for const parameter `N`"
    );
    assert_eq!(split_error(impl_deku_read(tokens("Foo<u8> +"))).0.unwrap(), "unexpected token");
    assert!(split_error(impl_deku_read(tokens("4"))).0.is_some());
    assert!(split_error(impl_deku_read(tokens(""))).0.is_some());
}

#[test]
fn input_of_the_hidden_macro() {
    let error = |text: &str| split_error(__deku_generic_impl(tokens(text))).0.unwrap();
    assert_eq!(error(""), "expected `@`");
    assert_eq!(error("read Foo"), "expected `@`");
    assert_eq!(error("@"), "unexpected end of input, expected identifier");
    assert_eq!(
        error("@parse Foo"),
        "unknown option `parse`; expected `read`, `write`, `read_write` or `crate = \"..\"`"
    );
    assert_eq!(error("@read Foo"), "expected `;`");
    assert_eq!(error("@read Foo ; ::a"), "expected `;`");
    assert_eq!(error("@read Foo ; ::a b"), "expected `;`");
    assert_eq!(error("@read Foo ; ::a ; enum Foo {}"), "expected `struct`");
    assert_eq!(error("@read Foo ; ::a ; struct Foo; 4"), "unexpected token");
}

#[test]
fn hidden_input_after_empty_invisible_delimiters() {
    let bare = |inner: &str| TokenTree::Group(Group::new(Delimiter::None, tokens(inner)));
    let error = |text: &str, inner: &str| {
        let mut input = tokens(text);
        input.extend([bare(inner)]);
        split_error(__deku_generic_impl(input)).0.unwrap()
    };
    assert_eq!(error("", ""), "expected `@`");
    assert_eq!(error("", "read"), "expected `@`");
    assert_eq!(error("@", ""), "expected identifier");
    assert_eq!(error("@", "4"), "expected identifier");
    assert_eq!(
        error("@", "parse"),
        "unknown option `parse`; expected `read`, `write`, `read_write` or `crate = \"..\"`"
    );
    assert_eq!(error("@read Foo ; ::a", ""), "expected `;`");
}
