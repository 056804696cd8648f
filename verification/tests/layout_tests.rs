use rendy::layout::descriptor::{
    CombinedImageSamplerDescriptor, Descriptor, DescriptorType, InputAttachmentDescriptor, SamplerDescriptor,
    StorageBufferDynamicDescriptor, UniformBufferDescriptor,
};
use rendy::layout::set::DescriptorSetLayoutCreateFlags;
use rendy::layout::shaders::ShaderStageFlags;
use rendy::memory::utilization::{effective_permyriad, fill, inverted_shade, permyriad, shade, Shade};

#[test]
fn shader_stage_flags() {
    let vf = ShaderStageFlags::vertex().union(ShaderStageFlags::fragment());
    assert_eq!(vf.bits(), 0x11);
    assert!(ShaderStageFlags::all_graphics().contains(vf));
    assert!(!vf.contains(ShaderStageFlags::compute()));
    assert!(vf.intersects(ShaderStageFlags::vertex()));
    assert_eq!(ShaderStageFlags::from_bits(0x8000_0000), None);
    assert_eq!(ShaderStageFlags::from_bits(0x20).map(|f| f.bits()), Some(0x20));
    assert_eq!(ShaderStageFlags::from_bits_truncate(0xFFFF_FFFF).bits(), 0x7FFF_FFFF);
    assert!(ShaderStageFlags::all().is_all());
    assert!(ShaderStageFlags::empty().is_empty());
    let mut f = ShaderStageFlags::empty();
    f.insert(ShaderStageFlags::geometry());
    f.insert(ShaderStageFlags::tessellation_control());
    f.remove(ShaderStageFlags::geometry());
    assert_eq!(f.bits(), 0x2);
    assert_eq!(vf.difference(ShaderStageFlags::vertex()).bits(), 0x10);
    assert_eq!(vf.intersection(ShaderStageFlags::all_graphics()).bits(), 0x11);
    assert_eq!(ShaderStageFlags::tessellation_evaluation().bits(), 0x4);
}

#[test]
fn descriptor_types_and_markers() {
    assert_eq!(DescriptorType::Sampler.value(), 0);
    assert_eq!(DescriptorType::InputAttachment.value(), 10);
    assert_eq!(DescriptorType::from_value(6), Some(DescriptorType::UniformBuffer));
    assert_eq!(DescriptorType::from_value(11), None);
    assert_eq!(SamplerDescriptor::descriptor_type(), DescriptorType::Sampler);
    assert_eq!(CombinedImageSamplerDescriptor::descriptor_type(), DescriptorType::CombinedImageSampler);
    assert_eq!(UniformBufferDescriptor::descriptor_type(), DescriptorType::UniformBuffer);
    assert_eq!(StorageBufferDynamicDescriptor::descriptor_type(), DescriptorType::StorageBufferDynamic);
    assert_eq!(InputAttachmentDescriptor::descriptor_type(), DescriptorType::InputAttachment);
}

#[test]
fn set_layout_flags() {
    let f = DescriptorSetLayoutCreateFlags::push_descriptor().union(DescriptorSetLayoutCreateFlags::update_after_bind_pool());
    assert_eq!(f.bits(), 3);
    assert!(f.contains(DescriptorSetLayoutCreateFlags::push_descriptor()));
    assert_eq!(DescriptorSetLayoutCreateFlags::from_bits_truncate(0xff).bits(), 3);
    assert_eq!(DescriptorSetLayoutCreateFlags::empty().bits(), 0);
}

#[test]
fn utilization_report_arithmetic() {
    assert_eq!(permyriad(512, 1024), 5000);
    assert_eq!(permyriad(1, 3), 3333);
    assert_eq!(fill(5000), 25);
    assert_eq!(fill(10001), 50);
    assert_eq!(effective_permyriad(3, 4, 10000), 7500);
    assert_eq!(effective_permyriad(0, 0, 10000), 10000);
    assert_eq!(effective_permyriad(0, 0, 0), 0);
    assert_eq!(shade(7501), Shade::Red);
    assert_eq!(shade(5001), Shade::Yellow);
    assert_eq!(shade(2501), Shade::Green);
    assert_eq!(shade(101), Shade::Blue);
    assert_eq!(shade(100), Shade::White);
    assert_eq!(inverted_shade(9901), Shade::White);
    assert_eq!(inverted_shade(9900), Shade::Blue);
    assert_eq!(inverted_shade(6000), Shade::Green);
    assert_eq!(inverted_shade(3000), Shade::Yellow);
    assert_eq!(inverted_shade(0), Shade::Red);
}
