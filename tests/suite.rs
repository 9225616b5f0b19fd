use cmarkfmt::Formatter;

fn test_cmark(input: &str, expected: &str) {
    let out = Formatter::default().format_cmark(input);
    assert_eq!(expected, &out);
}

#[test]
fn test_blockquote1() {
    let input = r#" >  This is a blockquote"#;

    let expected = r#"> This is a blockquote
"#;

    test_cmark(input, expected);
}

#[test]
fn test_blockquote2() {
    let input = r#"
>  This is a blockquote
> Multi-line"#;

    let expected = r#"> This is a blockquote
> Multi-line
"#;

    test_cmark(input, expected);
}

#[test]
fn test_blockquote3() {
    let input = r#"
> - With
    a
    list
> - Another item"#;

    let expected = r#"> - With
>   a
>   list
> - Another item
"#;

    test_cmark(input, expected);
}

#[test]
fn test_blockquote4() {
    let input = r#"
> - List item 1
>     - Nested item"#;

    let expected = r#"> - List item 1
>   - Nested item
"#;

    test_cmark(input, expected);
}

#[test]
fn test_blockquote5() {
    let input = r#"
> Blockquote
>> Nested
>>> Even more nested
> Back to original"#;

    let expected = r#"> Blockquote
>
> > Nested
> >
> > > Even more nested
> > > Back to original
"#;

    test_cmark(input, expected);
}

#[test]
fn general_test_list1() {
    let input = r#"
# This is a heading 
This is a paragraph. About not *much*.
It ~~spans~~ multiple *lines*. 

```json
{
    "key": "val"
}
```

    { "key1": 100 }

    { "key2: 101 }

---


<table>
<tr><td>Hi</td></tr>
</table>

<span>Some text</span>

Here's a **separate** paragraph.  
And another line.
"#;

    let expected = r#"# This is a heading

This is a paragraph. About not _much_.
It ~~spans~~ multiple _lines_.

```json
{
    "key": "val"
}
```

    { "key1": 100 }

    { "key2: 101 }

---

<table>
<tr><td>Hi</td></tr>
</table>

<span>Some text</span>

Here's a **separate** paragraph.\
And another line.
"#;

    test_cmark(input, expected);
}

#[test]
fn test_link1() {
    let input = r#"
[basic link](https://example.com)"#;

    let expected = r#"[basic link](https://example.com)
"#;

    test_cmark(input, expected);
}

#[test]
fn test_link2() {
    let input = r#"
Inline [basic link](https://example.com) that's part of a sentence."#;

    let expected = r#"Inline [basic link](https://example.com) that's part of a sentence.
"#;

    test_cmark(input, expected);
}

#[test]
fn test_link3() {
    let input = r#"
Here's a [shortcut]. It should be preserved.

[shortcut]: https://example.com"#;

    let expected = r#"Here's a [shortcut]. It should be preserved.

[shortcut]: https://example.com
"#;

    test_cmark(input, expected);
}

#[test]
fn test_link4() {
    let input = r#"
Here's a [collapsed][] link. It should be preserved.

[collapsed]: https://example.com"#;

    let expected = r#"Here's a [collapsed][] link. It should be preserved.

[collapsed]: https://example.com
"#;

    test_cmark(input, expected);
}

#[test]
fn test_link5() {
    let input = r#"
Here's a [reference][link]. It should be preserved.

[link]: https://example.com"#;

    let expected = r#"Here's a [reference][link]. It should be preserved.

[link]: https://example.com
"#;

    test_cmark(input, expected);
}

#[test]
fn test_link6() {
    let input = r#"
Here's a [reference][link1]. It should be preserved.

[link1]: https://example.com

There can be multiple: [link2].

[link2]: https://example.com/2 "This is a title""#;

    let expected = r#"Here's a [reference][link1]. It should be preserved.

There can be multiple: [link2].

[link1]: https://example.com
[link2]: https://example.com/2 "This is a title"
"#;

    test_cmark(input, expected);
}

#[test]
fn test_link7() {
    let input = r#"
Here's a [reference][link1].
"#;

    let expected = r#"Here's a \[reference\]\[link1\].
"#;

    test_cmark(input, expected);
}

#[test]
fn test_link8() {
    let input = r#"
Here's an <autolink>.
"#;

    let expected = r#"Here's an <autolink>.
"#;

    test_cmark(input, expected);
}

#[test]
fn list_test_list1() {
    let input = r#"
* item 1

* item 2
* item 3"#;

    let expected = r#"- item 1
- item 2
- item 3
"#;

    test_cmark(input, expected);
}

#[test]
fn test_list2() {
    let input = r#"
* item 1
  * item 2
  * item 3
    * item 4"#;

    let expected = r#"- item 1
  - item 2
  - item 3
    - item 4
"#;

    test_cmark(input, expected);
}

#[test]
fn test_list3() {
    let input = r#"
* Multiple
  line
  list
* Next item"#;

    let expected = r#"- Multiple
  line
  list
- Next item
"#;

    test_cmark(input, expected);
}

#[test]
fn test_list4() {
    let input = r#"
* > blockquote
  > inside
  > list
* Next item"#;

    let expected = r#"- > blockquote
  > inside
  > list

- Next item
"#;

    test_cmark(input, expected);
}

#[test]
fn test_table1() {
    let input = r#"
|Title|Description|
|---|---|
|Test|This is a test|"#;

    let expected = r#"| Title | Description    |
| ----- | -------------- |
| Test  | This is a test |
"#;

    test_cmark(input, expected);
}

#[test]
fn test_table2() {
    let input = r#"
|Title|Description|
|:--|---|
|Test|This is a test|"#;

    let expected = r#"| Title | Description    |
| :---- | -------------- |
| Test  | This is a test |
"#;

    test_cmark(input, expected);
}

#[test]
fn test_table3() {
    let input = r#"
|Title|Description|
|:-:|---|
|Test|This is a test|"#;

    let expected = r#"| Title | Description    |
| :---: | -------------- |
| Test  | This is a test |
"#;

    test_cmark(input, expected);
}

#[test]
fn test_table4() {
    let input = r#"
|Title|Description|
|--:|---|
|Test|This is a test|"#;

    let expected = r#"| Title | Description    |
| ----: | -------------- |
| Test  | This is a test |
"#;

    test_cmark(input, expected);
}

#[test]
fn test_table5() {
    let input = r#"
|Title| |
|:--|---|
|Test|This is a test|"#;

    let expected = r#"| Title |                |
| :---- | -------------- |
| Test  | This is a test |
"#;

    test_cmark(input, expected);
}

#[test]
fn test_table6() {
    let input = r#"
|Title| |
|:--|---|
|Test| |"#;

    let expected = r#"| Title |     |
| :---- | --- |
| Test  |     |
"#;

    test_cmark(input, expected);
}

#[test]
fn test_table7() {
    let input = r#"
> |Title|Description|
> |---|---|
> |Test|This is a test|"#;

    let expected = r#"> | Title | Description    |
> | ----- | -------------- |
> | Test  | This is a test |
"#;

    test_cmark(input, expected);
}

#[test]
fn test_table8() {
    let input = r#"
> - |Title|Description|
>   |---|---|
>   |Test|This is a test|"#;

    let expected = r#"> - | Title | Description    |
>   | ----- | -------------- |
>   | Test  | This is a test |
"#;

    test_cmark(input, expected);
}

#[test]
fn test_table9() {
    let input = r#"> Spacing required.


|Title|Description|
|---|---|
|Test|This is a test|"#;

    let expected = r#"> Spacing required.

| Title | Description    |
| ----- | -------------- |
| Test  | This is a test |
"#;

    test_cmark(input, expected);
}
