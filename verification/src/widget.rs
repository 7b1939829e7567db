//! Widget builders: the module-side vocabulary for describing a tree.
//!
//! Each builder assembles one [`WasmUiNode`]; a widget that can raise a
//! callback registers it in the render's callback list as it builds, and
//! carries the resulting 1-based id in its node — the same id the host
//! hands back when the callback fires.  Index 0 stays reserved for "none".

use vstd::prelude::*;

use crate::arena::{SliderNumberType, WasmUiNode};
use crate::callback::CallbackType;
use crate::theme::Color;

verus! {

/// Anything that can finish itself into a tree node, registering its
/// callbacks as it goes.
pub trait Widget {
    fn into_node(self, callbacks: &mut Vec<CallbackType>) -> WasmUiNode;
}

/// A horizontal container.
#[derive(Debug)]
pub struct Row {
    pub children: Vec<WasmUiNode>,
}

impl Row {
    pub fn new() -> (r: Row)
        ensures
            r.children@.len() == 0,
    {
        Row { children: Vec::new() }
    }

    pub fn from_vec(children: Vec<WasmUiNode>) -> (r: Row)
        ensures
            r.children == children,
    {
        Row { children }
    }

    /// Finishes the row into its node.
    pub fn build(self) -> (r: WasmUiNode)
        ensures
            r == (WasmUiNode::Row { children: self.children }),
    {
        WasmUiNode::Row { children: self.children }
    }
}

impl Widget for Row {
    fn into_node(self, callbacks: &mut Vec<CallbackType>) -> WasmUiNode {
        self.build()
    }
}

/// A vertical container.
#[derive(Debug)]
pub struct Column {
    pub children: Vec<WasmUiNode>,
}

impl Column {
    pub fn new() -> (r: Column)
        ensures
            r.children@.len() == 0,
    {
        Column { children: Vec::new() }
    }

    pub fn from_vec(children: Vec<WasmUiNode>) -> (r: Column)
        ensures
            r.children == children,
    {
        Column { children }
    }

    /// Finishes the column into its node.
    pub fn build(self) -> (r: WasmUiNode)
        ensures
            r == (WasmUiNode::Column { children: self.children }),
    {
        WasmUiNode::Column { children: self.children }
    }
}

impl Widget for Column {
    fn into_node(self, callbacks: &mut Vec<CallbackType>) -> WasmUiNode {
        self.build()
    }
}

/// A container stacking its children on top of each other.
#[derive(Debug)]
pub struct Stack {
    pub children: Vec<WasmUiNode>,
}

impl Stack {
    pub fn new() -> (r: Stack)
        ensures
            r.children@.len() == 0,
    {
        Stack { children: Vec::new() }
    }

    pub fn from_vec(children: Vec<WasmUiNode>) -> (r: Stack)
        ensures
            r.children == children,
    {
        Stack { children }
    }

    /// Finishes the stack into its node.
    pub fn build(self) -> (r: WasmUiNode)
        ensures
            r == (WasmUiNode::Stack { children: self.children }),
    {
        WasmUiNode::Stack { children: self.children }
    }
}

impl Widget for Stack {
    fn into_node(self, callbacks: &mut Vec<CallbackType>) -> WasmUiNode {
        self.build()
    }
}

/// A pressable widget wrapping exactly one child.
#[derive(Debug)]
pub struct Button {
    pub inner: WasmUiNode,
    pub on_press_message: Option<u32>,
}

impl Button {
    pub fn new(inner: WasmUiNode) -> (r: Button)
        ensures
            r.inner == inner,
            r.on_press_message is None,
    {
        Button { inner, on_press_message: None }
    }

    /// Raises `message_id` when the button is pressed.
    pub fn on_press(self, message_id: u32) -> (r: Button)
        ensures
            r.inner == self.inner,
            r.on_press_message == Some(message_id),
    {
        Button { inner: self.inner, on_press_message: Some(message_id) }
    }

    /// Finishes the button into its node, registering its callback: the
    /// node carries the callback's 1-based table index, or 0 when the
    /// button raises nothing.
    pub fn build(self, callbacks: &mut Vec<CallbackType>) -> (r: WasmUiNode)
        requires
            old(callbacks)@.len() < u32::MAX,
        ensures
            match self.on_press_message {
                Some(message_id) => final(callbacks)@ == old(callbacks)@.push(
                    CallbackType::Button { message_id },
                ) && r == (WasmUiNode::Button {
                    inner: Box::new(self.inner),
                    callback_id: (old(callbacks)@.len() + 1) as u32,
                }),
                None => final(callbacks)@ == old(callbacks)@ && r == (WasmUiNode::Button {
                    inner: Box::new(self.inner),
                    callback_id: 0u32,
                }),
            },
    {
        let callback_id: u32 = match self.on_press_message {
            Some(message_id) => {
                callbacks.push(CallbackType::Button { message_id });
                callbacks.len() as u32
            }
            None => 0,
        };
        WasmUiNode::Button { inner: Box::new(self.inner), callback_id }
    }
}

impl Widget for Button {
    fn into_node(self, callbacks: &mut Vec<CallbackType>) -> WasmUiNode {
        if callbacks.len() < u32::MAX as usize {
            self.build(callbacks)
        } else {
            WasmUiNode::Button { inner: Box::new(self.inner), callback_id: 0 }
        }
    }
}

/// A slider over a numeric range.  The range bounds and current value are
/// carried as 64-bit patterns in the representation named by
/// `number_type`; the host passes them through untouched.
#[derive(Debug, Clone, Copy, PartialEq, Eq, Structural)]
pub struct Slider {
    pub number_type: SliderNumberType,
    pub range_min: u64,
    pub range_max: u64,
    pub value: u64,
    pub on_change_message: u32,
}

impl Slider {
    pub fn new(
        number_type: SliderNumberType,
        range_min: u64,
        range_max: u64,
        value: u64,
        on_change_message: u32,
    ) -> (r: Slider)
        ensures
            r == (Slider { number_type, range_min, range_max, value, on_change_message }),
    {
        Slider { number_type, range_min, range_max, value, on_change_message }
    }

    /// Finishes the slider into its node, registering its change callback.
    pub fn build(self, callbacks: &mut Vec<CallbackType>) -> (r: WasmUiNode)
        requires
            old(callbacks)@.len() < u32::MAX,
        ensures
            final(callbacks)@ == old(callbacks)@.push(
                CallbackType::Slider { ty: self.number_type, message_id: self.on_change_message },
            ),
            r == (WasmUiNode::Slider {
                number_type: self.number_type,
                range_min: self.range_min,
                range_max: self.range_max,
                value: self.value,
                callback_id: (old(callbacks)@.len() + 1) as u32,
            }),
    {
        callbacks.push(CallbackType::Slider {
            ty: self.number_type,
            message_id: self.on_change_message,
        });
        WasmUiNode::Slider {
            number_type: self.number_type,
            range_min: self.range_min,
            range_max: self.range_max,
            value: self.value,
            callback_id: callbacks.len() as u32,
        }
    }
}

impl Widget for Slider {
    fn into_node(self, callbacks: &mut Vec<CallbackType>) -> WasmUiNode {
        if callbacks.len() < u32::MAX as usize {
            self.build(callbacks)
        } else {
            WasmUiNode::Slider {
                number_type: self.number_type,
                range_min: self.range_min,
                range_max: self.range_max,
                value: self.value,
                callback_id: 0,
            }
        }
    }
}

/// The style of a text widget.
#[derive(Debug, Clone, PartialEq, Eq)]
pub struct Style {
    pub text_color: Option<Color>,
}

/// A text leaf.  Content is carried as bytes; the shell interprets them as
/// text when rendering.
#[derive(Debug)]
pub struct Text {
    pub content: Vec<u8>,
    pub style: Option<Style>,
}

impl Text {
    pub fn new(content: Vec<u8>) -> (r: Text)
        ensures
            r.content == content,
            r.style is None,
    {
        Text { content, style: None }
    }

    /// Styles the text.
    pub fn style(self, style: Style) -> (r: Text)
        ensures
            r.content == self.content,
            r.style == Some(style),
    {
        Text { content: self.content, style: Some(style) }
    }

    /// Finishes the text into its node: the color code of its style, or 0
    /// when unstyled.
    pub fn build(self) -> (r: WasmUiNode)
        ensures
            r == (WasmUiNode::Text {
                content: self.content,
                color: match self.style {
                    Some(st) => match st.text_color {
                        Some(c) => c.spec_code(),
                        None => 0u8,
                    },
                    None => 0u8,
                },
            }),
    {
        let color: u8 = match &self.style {
            Some(st) => match &st.text_color {
                Some(c) => c.code(),
                None => 0,
            },
            None => 0,
        };
        WasmUiNode::Text { content: self.content, color }
    }
}

impl Widget for Text {
    fn into_node(self, callbacks: &mut Vec<CallbackType>) -> WasmUiNode {
        self.build()
    }
}

} // verus!
